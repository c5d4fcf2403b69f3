use vstd::prelude::*;

verus! {

/// A percentage reading, held as an exact decimal number: `micros` is the
/// numeric value multiplied by 1_000_000. Parsing truncates digits beyond
/// the sixth fractional place and saturates values whose micros exceed
/// `u64::MAX`.
#[derive(Clone, Copy, Debug, PartialEq, Eq, Structural)]
pub struct Percent {
    pub micros: u64,
}

impl Percent {
    /// The reading whose value is `micros / 1_000_000`.
    pub fn from_micros(micros: u64) -> (r: Percent)
        ensures
            r.micros == micros,
    {
        Percent { micros }
    }

    /// The zero reading, reported when a percentage string cannot be parsed.
    pub fn zero() -> (r: Percent)
        ensures
            r.micros == 0,
    {
        Percent { micros: 0 }
    }
}

pub open spec fn is_digit_char(c: char) -> bool {
    48 <= c as u32 <= 57
}

pub open spec fn digit_of(c: char) -> int {
    c as u32 - 48
}

/// The input with one trailing `%` removed, if it carries one.
pub open spec fn strip_percent_sign(s: Seq<char>) -> Seq<char> {
    if s.len() > 0 && s.last() == '%' {
        s.drop_last()
    } else {
        s
    }
}

/// An unsigned decimal numeral: digits with at most one decimal point and
/// at least one digit, the point allowed to lead or trail.
pub open spec fn is_decimal_string(s: Seq<char>) -> bool {
    &&& forall|i: int| 0 <= i < s.len() ==> is_digit_char(#[trigger] s[i]) || s[i] == '.'
    &&& exists|i: int| 0 <= i < s.len() && is_digit_char(#[trigger] s[i])
    &&& forall|i: int, j: int|
        0 <= i < j < s.len() ==> !((#[trigger] s[i]) == '.' && (#[trigger] s[j]) == '.')
}

pub open spec fn has_dot(s: Seq<char>) -> bool {
    exists|i: int| 0 <= i < s.len() && #[trigger] s[i] == '.'
}

/// The index of the decimal point, or the length when there is none.
pub open spec fn dot_pos(s: Seq<char>) -> int {
    if has_dot(s) {
        choose|i: int| 0 <= i < s.len() && s[i] == '.'
    } else {
        s.len() as int
    }
}

pub open spec fn int_digits(s: Seq<char>) -> Seq<char> {
    s.take(dot_pos(s))
}

pub open spec fn frac_digits(s: Seq<char>) -> Seq<char> {
    if has_dot(s) {
        s.skip(dot_pos(s) + 1)
    } else {
        Seq::empty()
    }
}

/// The value of a digit string read most significant digit first.
pub open spec fn digits_val(s: Seq<char>) -> int
    decreases s.len(),
{
    if s.len() == 0 {
        0
    } else {
        10 * digits_val(s.drop_last()) + digit_of(s.last())
    }
}

pub open spec fn pow10(n: nat) -> int
    decreases n,
{
    if n == 0 {
        1
    } else {
        10 * pow10((n - 1) as nat)
    }
}

/// The fractional digits as micros: the first six digits, scaled so that
/// a lone digit `d` reads as `d * 100_000`.
pub open spec fn frac_micros(s: Seq<char>) -> int {
    let t = if s.len() <= 6 {
        s
    } else {
        s.take(6)
    };
    digits_val(t) * pow10((6 - t.len()) as nat)
}

pub open spec fn decimal_micros(s: Seq<char>) -> int {
    1000000 * digits_val(int_digits(s)) + frac_micros(frac_digits(s))
}

pub open spec fn clamp_u64(v: int) -> u64 {
    if v > u64::MAX {
        u64::MAX
    } else if v < 0 {
        0
    } else {
        v as u64
    }
}

/// What parsing a percentage string yields, in micros: strip one trailing
/// `%`, then read the rest as an unsigned decimal numeral; anything else
/// reads as zero.
pub open spec fn parse_percent_spec(s: Seq<char>) -> u64 {
    let t = strip_percent_sign(s);
    if is_decimal_string(t) {
        clamp_u64(decimal_micros(t))
    } else {
        0
    }
}

proof fn lemma_digits_val_nonneg(s: Seq<char>)
    requires
        forall|i: int| 0 <= i < s.len() ==> is_digit_char(#[trigger] s[i]),
    ensures
        digits_val(s) >= 0,
    decreases s.len(),
{
    if s.len() > 0 {
        lemma_digits_val_nonneg(s.drop_last());
    }
}

proof fn lemma_pow10_adds(a: nat, b: nat)
    ensures
        pow10(a + b) == pow10(a) * pow10(b),
    decreases a,
{
    if a == 0 {
    } else {
        lemma_pow10_adds((a - 1) as nat, b);
        assert(pow10(a + b) == 10 * pow10((a + b - 1) as nat));
        assert(pow10(a) * pow10(b) == (10 * pow10((a - 1) as nat)) * pow10(b));
        assert((10 * pow10((a - 1) as nat)) * pow10(b) == 10 * (pow10((a - 1) as nat) * pow10(
            b,
        ))) by (nonlinear_arith);
    }
}

pub proof fn lemma_pow10_values()
    ensures
        pow10(0) == 1,
        pow10(1) == 10,
        pow10(2) == 100,
        pow10(3) == 1000,
        pow10(4) == 10000,
        pow10(5) == 100000,
        pow10(6) == 1000000,
{
    assert(pow10(0) == 1);
    assert(pow10(1) == 10);
    assert(pow10(2) == 100);
    assert(pow10(3) == 1000);
    assert(pow10(4) == 10000);
    assert(pow10(5) == 100000);
    assert(pow10(6) == 1000000);
}

fn pow10_u64(e: usize) -> (r: u64)
    requires
        e <= 6,
    ensures
        r as int == pow10(e as nat),
{
    proof {
        lemma_pow10_values();
    }
    if e == 0 {
        1
    } else if e == 1 {
        10
    } else if e == 2 {
        100
    } else if e == 3 {
        1000
    } else if e == 4 {
        10000
    } else if e == 5 {
        100000
    } else {
        1000000
    }
}

/// Reads a runtime-supplied percentage string such as `"0.2%"`. A single
/// trailing `%` is optional; a string that is not a decimal numeral reads
/// as zero rather than failing.
pub fn parse_percent(s: &str) -> (r: Percent)
    ensures
        r.micros == parse_percent_spec(s@),
{
    let len = s.unicode_len();
    let n = if len > 0 && s.get_char(len - 1) == '%' {
        len - 1
    } else {
        len
    };
    let ghost t = s@.take(n as int);
    proof {
        if len > 0 && s@.last() == '%' {
            assert(t =~= strip_percent_sign(s@));
        } else {
            assert(t =~= s@);
            assert(t =~= strip_percent_sign(s@));
        }
    }
    let mut digit_seen = false;
    let mut dot_seen = false;
    let mut dot_at: usize = n;
    let mut i: usize = 0;
    while i < n
        invariant
            i <= n,
            n <= s@.len(),
            t == s@.take(n as int),
            t == strip_percent_sign(s@),
            t.len() == n,
            forall|k: int| 0 <= k < i ==> is_digit_char(#[trigger] t[k]) || t[k] == '.',
            digit_seen == exists|k: int| 0 <= k < i && is_digit_char(#[trigger] t[k]),
            dot_seen == exists|k: int| 0 <= k < i && (#[trigger] t[k]) == '.',
            dot_seen ==> dot_at < i && t[dot_at as int] == '.',
            dot_seen ==> forall|k: int| 0 <= k < i && (#[trigger] t[k]) == '.' ==> k == dot_at,
            !dot_seen ==> dot_at == n,
        decreases n - i,
    {
        let c = s.get_char(i);
        proof {
            assert(t[i as int] == s@[i as int]);
        }
        if c == '.' {
            if dot_seen {
                proof {
                    assert(t[dot_at as int] == '.' && t[i as int] == '.');
                    assert(!is_decimal_string(t));
                }
                return Percent { micros: 0 };
            }
            dot_seen = true;
            dot_at = i;
        } else if (c as u32) < 48 || (c as u32) > 57 {
            proof {
                assert(!(is_digit_char(t[i as int]) || t[i as int] == '.'));
                assert(!is_decimal_string(t));
            }
            return Percent { micros: 0 };
        } else {
            digit_seen = true;
        }
        i = i + 1;
    }
    if !digit_seen {
        proof {
            assert(!is_decimal_string(t));
        }
        return Percent { micros: 0 };
    }
    proof {
        assert(is_decimal_string(t));
        if dot_seen {
            assert(has_dot(t));
            let p = dot_pos(t);
            assert(0 <= p < t.len() && t[p] == '.');
            assert(p == dot_at);
        } else {
            assert(!has_dot(t));
            assert(dot_pos(t) == t.len() as int);
        }
    }
    let ip_end = if dot_seen {
        dot_at
    } else {
        n
    };
    let ghost ipart = int_digits(t);
    proof {
        assert(ipart =~= t.take(ip_end as int));
        assert(forall|k: int| 0 <= k < ipart.len() ==> is_digit_char(#[trigger] ipart[k]));
    }
    let mut acc: u64 = 0;
    let mut j: usize = 0;
    proof {
        assert(ipart.take(0) =~= Seq::<char>::empty());
    }
    while j < ip_end
        invariant
            j <= ip_end,
            ip_end <= n,
            n <= s@.len(),
            t == s@.take(n as int),
            t.len() == n,
            ipart == int_digits(t),
            ipart =~= t.take(ip_end as int),
            forall|k: int| 0 <= k < ipart.len() ==> is_digit_char(#[trigger] ipart[k]),
            acc == clamp_u64(digits_val(ipart.take(j as int))),
        decreases ip_end - j,
    {
        let c = s.get_char(j);
        proof {
            assert(ipart[j as int] == s@[j as int]);
            assert(is_digit_char(ipart[j as int]));
        }
        let d = (c as u32 - 48) as u64;
        let ghost pre = ipart.take(j as int);
        let ghost post = ipart.take(j + 1);
        proof {
            assert(post.drop_last() =~= pre);
            assert(post.last() == ipart[j as int]);
            assert(digits_val(post) == 10 * digits_val(pre) + digit_of(ipart[j as int]));
            lemma_digits_val_nonneg(pre);
            lemma_digits_val_nonneg(post);
        }
        acc = match acc.checked_mul(10) {
            Some(m) => match m.checked_add(d) {
                Some(r) => r,
                None => u64::MAX,
            },
            None => u64::MAX,
        };
        j = j + 1;
    }
    proof {
        assert(ipart.take(ip_end as int) =~= ipart);
    }
    let mut fr: u64 = 0;
    let mut fcount: usize = 0;
    let ghost fpart = frac_digits(t);
    proof {
        if dot_seen {
            assert(fpart =~= t.skip(dot_at + 1));
        } else {
            assert(fpart =~= Seq::<char>::empty());
        }
        assert(forall|k: int| 0 <= k < fpart.len() ==> is_digit_char(#[trigger] fpart[k]));
        assert(fpart.take(0) =~= Seq::<char>::empty());
        lemma_pow10_values();
    }
    if dot_seen {
        let fstart = dot_at + 1;
        let avail = n - fstart;
        let fend = if avail > 6 {
            fstart + 6
        } else {
            n
        };
        let mut j2: usize = fstart;
        while j2 < fend
            invariant
                fstart <= j2 <= fend,
                fend <= n,
                fstart == dot_at + 1,
                fend - fstart <= 6,
                n <= s@.len(),
                t == s@.take(n as int),
                t.len() == n,
                fpart == frac_digits(t),
                fpart =~= t.skip(fstart as int),
                forall|k: int| 0 <= k < fpart.len() ==> is_digit_char(#[trigger] fpart[k]),
                fcount == j2 - fstart,
                fr == digits_val(fpart.take(fcount as int)),
                fr < pow10(fcount as nat),
            decreases fend - j2,
        {
            let c = s.get_char(j2);
            proof {
                assert(fpart[fcount as int] == s@[j2 as int]);
                assert(is_digit_char(fpart[fcount as int]));
            }
            let d = (c as u32 - 48) as u64;
            let ghost pre = fpart.take(fcount as int);
            let ghost post = fpart.take(fcount + 1);
            proof {
                assert(post.drop_last() =~= pre);
                assert(post.last() == fpart[fcount as int]);
                assert(digits_val(post) == 10 * digits_val(pre) + digit_of(fpart[fcount as int]));
                assert(pow10((fcount + 1) as nat) == 10 * pow10(fcount as nat));
                lemma_pow10_values();
                assert(pow10(fcount as nat) <= pow10(6));
            }
            fr = fr * 10 + d;
            fcount = fcount + 1;
            j2 = j2 + 1;
        }
    }
    let ghost ftrunc = if fpart.len() <= 6 { fpart } else { fpart.take(6) };
    proof {
        if dot_seen {
            assert(fpart.take(fcount as int) =~= ftrunc);
        } else {
            assert(ftrunc =~= Seq::<char>::empty());
        }
        assert(fr == digits_val(ftrunc));
        assert(fcount == ftrunc.len());
    }
    let scale = pow10_u64(6 - fcount);
    proof {
        lemma_pow10_values();
        lemma_pow10_adds(fcount as nat, (6 - fcount) as nat);
        assert(fr * scale < 1000000) by (nonlinear_arith)
            requires
                0 <= fr,
                fr < pow10(fcount as nat),
                scale == pow10((6 - fcount) as nat),
                pow10(fcount as nat) * pow10((6 - fcount) as nat) == 1000000,
                scale >= 1,
        ;
        assert(fr * scale == frac_micros(fpart));
    }
    let fr_s = fr * scale;
    let ghost vi = digits_val(int_digits(t));
    let ghost vf = frac_micros(fpart);
    proof {
        lemma_digits_val_nonneg(ipart);
        assert(acc == clamp_u64(vi));
        assert(0 <= vf < 1000000);
        if vi > u64::MAX {
            assert(1000000 * vi > u64::MAX);
        }
    }
    let macc = match acc.checked_mul(1000000) {
        Some(m) => m,
        None => u64::MAX,
    };
    proof {
        assert(macc == clamp_u64(1000000 * vi));
    }
    let total = match macc.checked_add(fr_s) {
        Some(v) => v,
        None => u64::MAX,
    };
    proof {
        assert(decimal_micros(t) == 1000000 * vi + vf);
        assert(total == clamp_u64(decimal_micros(t)));
    }
    Percent { micros: total }
}

} // verus!
