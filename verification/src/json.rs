use vstd::prelude::*;
use crate::percent::Percent;
use crate::percent::pow10;
use crate::percent::lemma_pow10_values;
use crate::Container;

verus! {

/// The bytes of an ASCII string, character for character. Applied only to
/// literals that hold ASCII; the truncating cast makes it total.
pub open spec fn ascii_bytes(s: Seq<char>) -> Seq<u8> {
    Seq::new(s.len(), |i: int| s[i] as u8)
}

pub open spec fn hex_digit(n: int) -> u8 {
    if n < 10 {
        (48 + n) as u8
    } else {
        (87 + n) as u8
    }
}

/// Four lowercase hex digits, most significant first.
pub open spec fn hex4(n: int) -> Seq<u8> {
    seq![
        hex_digit(n / 4096 % 16),
        hex_digit(n / 256 % 16),
        hex_digit(n / 16 % 16),
        hex_digit(n % 16),
    ]
}

/// How one character is written inside a JSON string: quote and backslash
/// escaped, the named control escapes where JSON has them, `\u` escapes for
/// the other control characters and for everything beyond ASCII (a
/// surrogate pair above the basic plane), and the plain byte otherwise.
pub open spec fn escape_char(c: char) -> Seq<u8> {
    let u = c as u32;
    if c == '"' {
        seq![92u8, 34u8]
    } else if c == '\\' {
        seq![92u8, 92u8]
    } else if u == 8 {
        seq![92u8, 98u8]
    } else if u == 9 {
        seq![92u8, 116u8]
    } else if u == 10 {
        seq![92u8, 110u8]
    } else if u == 12 {
        seq![92u8, 102u8]
    } else if u == 13 {
        seq![92u8, 114u8]
    } else if u < 32 {
        seq![92u8, 117u8] + hex4(u as int)
    } else if u < 128 {
        seq![u as u8]
    } else if u <= 0xFFFF {
        seq![92u8, 117u8] + hex4(u as int)
    } else {
        seq![92u8, 117u8] + hex4(0xD800 + (u - 0x10000) as int / 1024) + seq![92u8, 117u8]
            + hex4(0xDC00 + (u - 0x10000) as int % 1024)
    }
}

pub open spec fn escape_seq(s: Seq<char>) -> Seq<u8>
    decreases s.len(),
{
    if s.len() == 0 {
        Seq::empty()
    } else {
        escape_seq(s.drop_last()) + escape_char(s.last())
    }
}

/// A JSON string literal: the escaped characters between two quotes.
pub open spec fn json_string(s: Seq<char>) -> Seq<u8> {
    seq![34u8] + escape_seq(s) + seq![34u8]
}

/// The decimal digits of `n`, most significant first, no leading zeros.
pub open spec fn dec_u64(n: nat) -> Seq<u8>
    decreases n,
{
    if n < 10 {
        seq![(48 + n) as u8]
    } else {
        dec_u64(n / 10) + seq![(48 + n % 10) as u8]
    }
}

/// The six decimal digits of a fraction of a million, most significant
/// first, zero-padded on the left.
pub open spec fn pad6(f: int) -> Seq<u8> {
    Seq::new(6, |i: int| (48 + (f / pow10((5 - i) as nat)) % 10) as u8)
}

/// Trailing zero digits removed, one digit always kept.
pub open spec fn strip_tz(s: Seq<u8>) -> Seq<u8>
    decreases s.len(),
{
    if s.len() <= 1 {
        s
    } else if s.last() == 48u8 {
        strip_tz(s.drop_last())
    } else {
        s
    }
}

pub open spec fn frac6(f: int) -> Seq<u8> {
    strip_tz(pad6(f))
}

/// A percentage reading as a JSON number: the integer part, a point, and
/// the fractional digits with trailing zeros dropped (`"12.0"`, `"0.2"`).
pub open spec fn dec_percent(m: u64) -> Seq<u8> {
    dec_u64((m / 1000000) as nat) + seq![46u8] + frac6((m % 1000000) as int)
}

/// One container as a JSON object, fields in the API's order.
pub open spec fn json_container(c: Container) -> Seq<u8> {
    ascii_bytes("{\"id\":"@) + json_string(c.id@) + ascii_bytes(",\"name\":"@) + json_string(
        c.name@,
    ) + ascii_bytes(",\"started_at\":"@) + dec_u64(c.started_at as nat) + ascii_bytes(
        ",\"cpu_percent\":"@,
    ) + dec_percent(c.cpu_percent.micros) + ascii_bytes(",\"memory_percent\":"@) + dec_percent(
        c.memory_percent.micros,
    ) + ascii_bytes(",\"memory_usage\":"@) + json_string(c.memory_usage@) + ascii_bytes("}"@)
}

pub open spec fn json_items(cs: Seq<Container>) -> Seq<u8>
    decreases cs.len(),
{
    if cs.len() == 0 {
        Seq::empty()
    } else if cs.len() == 1 {
        json_container(cs[0])
    } else {
        json_items(cs.drop_last()) + seq![44u8] + json_container(cs.last())
    }
}

/// A snapshot as a JSON array of container objects, comma separated.
pub open spec fn json_list(cs: Seq<Container>) -> Seq<u8> {
    seq![91u8] + json_items(cs) + seq![93u8]
}

/// Appends the bytes of an ASCII literal.
fn push_ascii(out: &mut Vec<u8>, s: &str)
    ensures
        final(out)@ == old(out)@ + ascii_bytes(s@),
{
    let n = s.unicode_len();
    let mut i: usize = 0;
    proof {
        assert(old(out)@ + ascii_bytes(s@).take(0) =~= old(out)@);
    }
    while i < n
        invariant
            i <= n,
            n == s@.len(),
            out@ == old(out)@ + ascii_bytes(s@).take(i as int),
        decreases n - i,
    {
        let c = s.get_char(i);
        out.push(c as u8);
        proof {
            assert(ascii_bytes(s@).take(i + 1) =~= ascii_bytes(s@).take(i as int) + seq![
                s@[i as int] as u8,
            ]);
            assert(out@ =~= old(out)@ + ascii_bytes(s@).take(i + 1));
        }
        i = i + 1;
    }
    proof {
        assert(ascii_bytes(s@).take(n as int) =~= ascii_bytes(s@));
    }
}

fn hex_u8(d: u32) -> (r: u8)
    requires
        d < 16,
    ensures
        r == hex_digit(d as int),
{
    if d < 10 {
        (48 + d) as u8
    } else {
        (87 + d) as u8
    }
}

fn push_hex4(out: &mut Vec<u8>, v: u32)
    requires
        v <= 0xFFFF,
    ensures
        final(out)@ == old(out)@ + hex4(v as int),
{
    let d0 = hex_u8(v / 4096 % 16);
    let d1 = hex_u8(v / 256 % 16);
    let d2 = hex_u8(v / 16 % 16);
    let d3 = hex_u8(v % 16);
    out.push(d0);
    out.push(d1);
    out.push(d2);
    out.push(d3);
    proof {
        assert(out@ =~= old(out)@ + hex4(v as int));
    }
}

/// Appends one string value in JSON form, quotes and escapes included.
fn push_json_string(out: &mut Vec<u8>, s: &str)
    ensures
        final(out)@ == old(out)@ + json_string(s@),
{
    out.push(34);
    let n = s.unicode_len();
    let mut i: usize = 0;
    proof {
        assert(escape_seq(s@.take(0)) =~= Seq::<u8>::empty());
        assert(out@ =~= old(out)@ + seq![34u8] + escape_seq(s@.take(0)));
    }
    while i < n
        invariant
            i <= n,
            n == s@.len(),
            out@ == old(out)@ + seq![34u8] + escape_seq(s@.take(i as int)),
        decreases n - i,
    {
        let c = s.get_char(i);
        let ghost pre = out@;
        let u = c as u32;
        if c == '"' {
            out.push(92);
            out.push(34);
        } else if c == '\\' {
            out.push(92);
            out.push(92);
        } else if u == 8 {
            out.push(92);
            out.push(98);
        } else if u == 9 {
            out.push(92);
            out.push(116);
        } else if u == 10 {
            out.push(92);
            out.push(110);
        } else if u == 12 {
            out.push(92);
            out.push(102);
        } else if u == 13 {
            out.push(92);
            out.push(114);
        } else if u < 32 {
            out.push(92);
            out.push(117);
            push_hex4(out, u);
        } else if u < 128 {
            out.push(c as u8);
        } else if u <= 0xFFFF {
            out.push(92);
            out.push(117);
            push_hex4(out, u);
        } else {
            out.push(92);
            out.push(117);
            push_hex4(out, 0xD800 + (u - 0x10000) / 1024);
            out.push(92);
            out.push(117);
            push_hex4(out, 0xDC00 + (u - 0x10000) % 1024);
        }
        proof {
            assert(out@ =~= pre + escape_char(s@[i as int]));
            assert(s@.take(i + 1).drop_last() =~= s@.take(i as int));
            assert(s@.take(i + 1).last() == s@[i as int]);
            assert(out@ =~= old(out)@ + seq![34u8] + escape_seq(s@.take(i + 1)));
        }
        i = i + 1;
    }
    out.push(34);
    proof {
        assert(s@.take(n as int) =~= s@);
        assert(out@ =~= old(out)@ + json_string(s@));
    }
}

/// Appends the decimal digits of `n`.
fn push_u64(out: &mut Vec<u8>, n: u64)
    ensures
        final(out)@ == old(out)@ + dec_u64(n as nat),
{
    let mut tmp: Vec<u8> = Vec::new();
    let mut m: u64 = n;
    while m >= 10
        invariant
            dec_u64(n as nat) == dec_u64(m as nat) + tmp@.reverse(),
        decreases m,
    {
        let ghost t0 = tmp@;
        tmp.push(48 + (m % 10) as u8);
        proof {
            assert(tmp@.reverse() =~= seq![(48 + (m as nat) % 10) as u8] + t0.reverse());
            assert(dec_u64(m as nat) == dec_u64((m as nat) / 10) + seq![(48 + (m as nat) % 10) as u8]);
            assert(dec_u64((m / 10) as nat) + tmp@.reverse() =~= dec_u64(m as nat) + t0.reverse());
        }
        m = m / 10;
    }
    let ghost t0 = tmp@;
    tmp.push(48 + (m % 10) as u8);
    proof {
        assert((m as nat) % 10 == m as nat);
        assert(tmp@.reverse() =~= seq![(48 + (m as nat)) as u8] + t0.reverse());
        assert(dec_u64(m as nat) =~= seq![(48 + (m as nat)) as u8]);
        assert(dec_u64(n as nat) =~= tmp@.reverse());
    }
    let ghost digits = dec_u64(n as nat);
    let ghost out0 = out@;
    while tmp.len() > 0
        invariant
            digits == dec_u64(n as nat),
            tmp@.len() <= digits.len(),
            out@ == out0 + digits.take(digits.len() - tmp@.len()),
            forall|k: int|
                0 <= k < tmp@.len() ==> #[trigger] tmp@[k] == digits[digits.len() - 1 - k],
        decreases tmp@.len(),
    {
        let ghost tpre = tmp@;
        let x = match tmp.pop() {
            Some(x) => x,
            None => 0,
        };
        out.push(x);
        proof {
            assert(x == tpre[tpre.len() - 1]);
            assert(x == digits[digits.len() - tpre.len()]);
            assert(out@ =~= out0 + digits.take(digits.len() - tmp@.len()));
        }
    }
    proof {
        assert(digits.take(digits.len() as int) =~= digits);
    }
}

/// Appends a percentage reading as a JSON number.
fn push_percent(out: &mut Vec<u8>, p: Percent)
    ensures
        final(out)@ == old(out)@ + dec_percent(p.micros),
{
    proof {
        lemma_pow10_values();
    }
    let ip = p.micros / 1000000;
    let fr = p.micros % 1000000;
    push_u64(out, ip);
    out.push(46);
    let mut digs: Vec<u8> = Vec::new();
    digs.push(48 + (fr / 100000 % 10) as u8);
    digs.push(48 + (fr / 10000 % 10) as u8);
    digs.push(48 + (fr / 1000 % 10) as u8);
    digs.push(48 + (fr / 100 % 10) as u8);
    digs.push(48 + (fr / 10 % 10) as u8);
    digs.push(48 + (fr % 10) as u8);
    proof {
        assert(digs@ =~= pad6((p.micros % 1000000) as int));
    }
    while digs.len() > 1 && digs[digs.len() - 1] == 48
        invariant
            digs@.len() >= 1,
            strip_tz(digs@) == frac6((p.micros % 1000000) as int),
        decreases digs@.len(),
    {
        let ghost dpre = digs@;
        let _ = digs.pop();
        proof {
            assert(digs@ =~= dpre.drop_last());
            assert(strip_tz(dpre) == strip_tz(dpre.drop_last()));
        }
    }
    proof {
        assert(strip_tz(digs@) == digs@);
    }
    let mut digs = digs;
    out.append(&mut digs);
    proof {
        assert(out@ =~= old(out)@ + dec_percent(p.micros));
    }
}

/// Appends one container as a JSON object.
fn push_container(out: &mut Vec<u8>, c: &Container)
    ensures
        final(out)@ == old(out)@ + json_container(*c),
{
    push_ascii(out, "{\"id\":");
    push_json_string(out, c.id.as_str());
    push_ascii(out, ",\"name\":");
    push_json_string(out, c.name.as_str());
    push_ascii(out, ",\"started_at\":");
    push_u64(out, c.started_at);
    push_ascii(out, ",\"cpu_percent\":");
    push_percent(out, c.cpu_percent);
    push_ascii(out, ",\"memory_percent\":");
    push_percent(out, c.memory_percent);
    push_ascii(out, ",\"memory_usage\":");
    push_json_string(out, c.memory_usage.as_str());
    push_ascii(out, "}");
    proof {
        assert(out@ =~= old(out)@ + json_container(*c));
    }
}

/// The JSON array that a snapshot is sent as, byte for byte.
pub fn json_of_containers(cs: &Vec<Container>) -> (r: Vec<u8>)
    ensures
        r@ == json_list(cs@),
{
    let mut out: Vec<u8> = Vec::new();
    out.push(91);
    let mut i: usize = 0;
    proof {
        assert(json_items(cs@.take(0)) =~= Seq::<u8>::empty());
        assert(out@ =~= seq![91u8] + json_items(cs@.take(0)));
    }
    while i < cs.len()
        invariant
            i <= cs@.len(),
            out@ == seq![91u8] + json_items(cs@.take(i as int)),
        decreases cs@.len() - i,
    {
        let ghost pre = out@;
        if i > 0 {
            out.push(44);
        }
        push_container(&mut out, &cs[i]);
        proof {
            assert(cs@.take(i + 1).drop_last() =~= cs@.take(i as int));
            assert(cs@.take(i + 1).last() == cs@[i as int]);
            if i == 0 {
                assert(json_items(cs@.take(1)) == json_container(cs@[0]));
                assert(out@ =~= seq![91u8] + json_items(cs@.take(i + 1)));
            } else {
                assert(out@ =~= seq![91u8] + json_items(cs@.take(i + 1)));
            }
        }
        i = i + 1;
    }
    proof {
        assert(cs@.take(cs@.len() as int) =~= cs@);
    }
    out.push(93);
    proof {
        assert(out@ =~= json_list(cs@));
    }
    out
}

} // verus!
