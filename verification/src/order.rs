use vstd::prelude::*;
use vstd::seq_lib::group_to_multiset_ensures;
use vstd::seq_lib::lemma_multiset_commutative;
use vstd::multiset::group_multiset_axioms;
use vstd::multiset::Multiset;

verus! {

/// Lexicographic order on character sequences by code point, the order in
/// which merged snapshots list their containers. It agrees with the
/// byte-wise order of the UTF-8 encodings of the two strings.
pub open spec fn lex_le(a: Seq<char>, b: Seq<char>) -> bool
    decreases a.len(),
{
    if a.len() == 0 {
        true
    } else if b.len() == 0 {
        false
    } else if (a[0] as u32) < (b[0] as u32) {
        true
    } else if (b[0] as u32) < (a[0] as u32) {
        false
    } else {
        lex_le(a.drop_first(), b.drop_first())
    }
}

pub proof fn lemma_lex_le_refl(a: Seq<char>)
    ensures
        lex_le(a, a),
    decreases a.len(),
{
    if a.len() > 0 {
        lemma_lex_le_refl(a.drop_first());
    }
}

pub proof fn lemma_lex_le_total(a: Seq<char>, b: Seq<char>)
    ensures
        lex_le(a, b) || lex_le(b, a),
    decreases a.len(),
{
    if a.len() > 0 && b.len() > 0 && (a[0] as u32) == (b[0] as u32) {
        lemma_lex_le_total(a.drop_first(), b.drop_first());
    }
}

pub proof fn lemma_lex_le_trans(a: Seq<char>, b: Seq<char>, c: Seq<char>)
    requires
        lex_le(a, b),
        lex_le(b, c),
    ensures
        lex_le(a, c),
    decreases a.len(),
{
    if a.len() > 0 && b.len() > 0 && c.len() > 0 {
        if (a[0] as u32) == (b[0] as u32) && (b[0] as u32) == (c[0] as u32) {
            lemma_lex_le_trans(a.drop_first(), b.drop_first(), c.drop_first());
        }
    }
}

proof fn char_cast_inj(c1: char, c2: char)
    requires
        c1 as u32 == c2 as u32,
    ensures
        c1 == c2,
{
}

pub proof fn lemma_lex_le_antisym(a: Seq<char>, b: Seq<char>)
    requires
        lex_le(a, b),
        lex_le(b, a),
    ensures
        a == b,
    decreases a.len(),
{
    if a.len() > 0 && b.len() > 0 {
        assert(a[0] as u32 == b[0] as u32);
        char_cast_inj(a[0], b[0]);
        lemma_lex_le_antisym(a.drop_first(), b.drop_first());
        assert(a =~= seq![a[0]] + a.drop_first());
        assert(b =~= seq![b[0]] + b.drop_first());
    } else {
        assert(a =~= b);
    }
}

/// Decides `lex_le` on two strings by comparing characters left to right.
pub fn str_le(a: &str, b: &str) -> (r: bool)
    ensures
        r == lex_le(a@, b@),
{
    let la = a.unicode_len();
    let lb = b.unicode_len();
    let mut i: usize = 0;
    proof {
        assert(a@.skip(0) =~= a@);
        assert(b@.skip(0) =~= b@);
    }
    while i < la && i < lb
        invariant
            0 <= i <= la,
            i <= lb,
            la == a@.len(),
            lb == b@.len(),
            lex_le(a@, b@) == lex_le(a@.skip(i as int), b@.skip(i as int)),
        decreases la - i,
    {
        let ca = a.get_char(i);
        let cb = b.get_char(i);
        proof {
            assert(a@.skip(i as int)[0] == ca);
            assert(b@.skip(i as int)[0] == cb);
        }
        if (ca as u32) < (cb as u32) {
            return true;
        }
        if (cb as u32) < (ca as u32) {
            return false;
        }
        proof {
            assert(a@.skip(i as int).drop_first() =~= a@.skip(i + 1));
            assert(b@.skip(i as int).drop_first() =~= b@.skip(i + 1));
        }
        i = i + 1;
    }
    la <= lb
}

/// `p` is a leading segment of `s`. A usage-stats record may carry such a
/// truncated form of the canonical identifier.
pub open spec fn is_prefix_of(p: Seq<char>, s: Seq<char>) -> bool {
    p.len() <= s.len() && s.take(p.len() as int) == p
}

/// Decides whether `s` starts with `p`.
pub fn str_starts_with(s: &str, p: &str) -> (r: bool)
    ensures
        r == is_prefix_of(p@, s@),
{
    let ls = s.unicode_len();
    let lp = p.unicode_len();
    if lp > ls {
        return false;
    }
    let mut i: usize = 0;
    while i < lp
        invariant
            i <= lp,
            lp <= ls,
            ls == s@.len(),
            lp == p@.len(),
            forall|k: int| 0 <= k < i ==> s@[k] == p@[k],
        decreases lp - i,
    {
        let cs = s.get_char(i);
        let cp = p.get_char(i);
        if cs != cp {
            proof {
                assert(s@.take(lp as int)[i as int] != p@[i as int]);
            }
            return false;
        }
        i = i + 1;
    }
    proof {
        assert(s@.take(lp as int) =~= p@);
    }
    true
}

/// Decides whether two strings hold the same characters.
pub fn str_eq(a: &str, b: &str) -> (r: bool)
    ensures
        r == (a@ == b@),
{
    let la = a.unicode_len();
    let lb = b.unicode_len();
    if la != lb {
        return false;
    }
    let mut i: usize = 0;
    while i < la
        invariant
            i <= la,
            la == a@.len(),
            lb == b@.len(),
            la == lb,
            forall|k: int| 0 <= k < i ==> a@[k] == b@[k],
        decreases la - i,
    {
        let ca = a.get_char(i);
        let cb = b.get_char(i);
        if ca != cb {
            return false;
        }
        i = i + 1;
    }
    proof {
        assert(a@ =~= b@);
    }
    true
}

/// A record that carries a container identifier, the key by which
/// snapshots are ordered and correlated.
pub trait IdKeyed: Sized {
    /// The identifier as a character sequence.
    spec fn id_key(&self) -> Seq<char>;

    /// The identifier itself.
    fn id_str(&self) -> (r: &str)
        ensures
            r@ == self.id_key(),
    ;
}

/// `x` inserted into `s` after every record whose identifier is not
/// greater, so that inserting into a sorted sequence keeps it sorted.
pub open spec fn ins_by_id<T: IdKeyed>(s: Seq<T>, x: T) -> Seq<T>
    decreases s.len(),
{
    if s.len() == 0 {
        seq![x]
    } else if lex_le(s[0].id_key(), x.id_key()) {
        seq![s[0]] + ins_by_id(s.drop_first(), x)
    } else {
        seq![x] + s
    }
}

/// Insertion sort of `s` by identifier: the unique stable sorted
/// arrangement of its records.
pub open spec fn sort_by_id<T: IdKeyed>(s: Seq<T>) -> Seq<T>
    decreases s.len(),
{
    if s.len() == 0 {
        Seq::empty()
    } else {
        ins_by_id(sort_by_id(s.drop_last()), s.last())
    }
}

/// The identifiers of `s` appear in ascending lexicographic order.
pub open spec fn sorted_by_id<T: IdKeyed>(s: Seq<T>) -> bool {
    forall|i: int, j: int|
        0 <= i < j < s.len() ==> lex_le(#[trigger] s[i].id_key(), #[trigger] s[j].id_key())
}

/// No two records of `s` carry the same identifier.
pub open spec fn distinct_ids<T: IdKeyed>(s: Seq<T>) -> bool {
    forall|i: int, j: int|
        0 <= i < j < s.len() ==> #[trigger] s[i].id_key() != #[trigger] s[j].id_key()
}

pub proof fn lemma_ins_len<T: IdKeyed>(s: Seq<T>, x: T)
    ensures
        ins_by_id(s, x).len() == s.len() + 1,
    decreases s.len(),
{
    if s.len() > 0 && lex_le(s[0].id_key(), x.id_key()) {
        lemma_ins_len(s.drop_first(), x);
    }
}

pub proof fn lemma_sort_len<T: IdKeyed>(s: Seq<T>)
    ensures
        sort_by_id(s).len() == s.len(),
    decreases s.len(),
{
    if s.len() > 0 {
        lemma_sort_len(s.drop_last());
        lemma_ins_len(sort_by_id(s.drop_last()), s.last());
    }
}

/// Every record of the inserted sequence is the new record or one of `s`.
pub proof fn lemma_ins_index<T: IdKeyed>(s: Seq<T>, x: T, k: int)
    requires
        0 <= k < ins_by_id(s, x).len(),
    ensures
        ins_by_id(s, x)[k] == x || s.contains(ins_by_id(s, x)[k]),
    decreases s.len(),
{
    lemma_ins_len(s, x);
    if s.len() == 0 {
    } else if lex_le(s[0].id_key(), x.id_key()) {
        if k == 0 {
            assert(s[0] == s.index(0));
        } else {
            lemma_ins_index(s.drop_first(), x, k - 1);
            let r = ins_by_id(s, x);
            assert(r[k] == ins_by_id(s.drop_first(), x)[k - 1]);
            if s.drop_first().contains(r[k]) {
                let m = choose|m: int|
                    0 <= m < s.drop_first().len() && s.drop_first()[m] == r[k];
                assert(s[m + 1] == r[k]);
            }
        }
    } else {
        if k > 0 {
            assert(ins_by_id(s, x)[k] == s[k - 1]);
        }
    }
}

pub proof fn lemma_ins_sorted<T: IdKeyed>(s: Seq<T>, x: T)
    requires
        sorted_by_id(s),
    ensures
        sorted_by_id(ins_by_id(s, x)),
    decreases s.len(),
{
    lemma_ins_len(s, x);
    let r = ins_by_id(s, x);
    if s.len() == 0 {
    } else if lex_le(s[0].id_key(), x.id_key()) {
        let s1 = s.drop_first();
        assert forall|i: int, j: int| 0 <= i < j < s1.len() implies lex_le(
            #[trigger] s1[i].id_key(),
            #[trigger] s1[j].id_key(),
        ) by {
            assert(s1[i] == s[i + 1]);
            assert(s1[j] == s[j + 1]);
        }
        lemma_ins_sorted(s1, x);
        lemma_ins_len(s1, x);
        let r1 = ins_by_id(s1, x);
        assert forall|i: int, j: int| 0 <= i < j < r.len() implies lex_le(
            #[trigger] r[i].id_key(),
            #[trigger] r[j].id_key(),
        ) by {
            if i == 0 {
                assert(r[0] == s[0]);
                assert(r[j] == r1[j - 1]);
                lemma_ins_index(s1, x, j - 1);
                if r1[j - 1] == x {
                } else {
                    let m = choose|m: int| 0 <= m < s1.len() && s1[m] == r1[j - 1];
                    assert(s[m + 1] == r1[j - 1]);
                    assert(lex_le(s[0].id_key(), s[m + 1].id_key()));
                }
            } else {
                assert(r[i] == r1[i - 1]);
                assert(r[j] == r1[j - 1]);
            }
        }
    } else {
        lemma_lex_le_total(s[0].id_key(), x.id_key());
        assert forall|i: int, j: int| 0 <= i < j < r.len() implies lex_le(
            #[trigger] r[i].id_key(),
            #[trigger] r[j].id_key(),
        ) by {
            if i == 0 {
                assert(r[0] == x);
                assert(r[j] == s[j - 1]);
                if j - 1 > 0 {
                    assert(lex_le(s[0].id_key(), s[j - 1].id_key()));
                } else {
                    lemma_lex_le_refl(s[0].id_key());
                }
                lemma_lex_le_trans(x.id_key(), s[0].id_key(), s[j - 1].id_key());
            } else {
                assert(r[i] == s[i - 1]);
                assert(r[j] == s[j - 1]);
            }
        }
    }
}

pub proof fn lemma_sort_sorted<T: IdKeyed>(s: Seq<T>)
    ensures
        sorted_by_id(sort_by_id(s)),
    decreases s.len(),
{
    if s.len() > 0 {
        lemma_sort_sorted(s.drop_last());
        lemma_ins_sorted(sort_by_id(s.drop_last()), s.last());
    }
}

pub proof fn lemma_ins_multiset<T: IdKeyed>(s: Seq<T>, x: T)
    ensures
        ins_by_id(s, x).to_multiset() =~= s.to_multiset().insert(x),
    decreases s.len(),
{
    broadcast use group_to_multiset_ensures;
    broadcast use group_multiset_axioms;

    if s.len() == 0 {
        assert(seq![x] =~= Seq::<T>::empty().push(x));
        assert(s.to_multiset() =~= Multiset::<T>::empty());
    } else if lex_le(s[0].id_key(), x.id_key()) {
        let s1 = s.drop_first();
        lemma_ins_multiset(s1, x);
        lemma_multiset_commutative(seq![s[0]], ins_by_id(s1, x));
        lemma_multiset_commutative(seq![s[0]], s1);
        assert(s =~= seq![s[0]] + s1);
        assert(seq![s[0]].to_multiset() =~= Multiset::<T>::empty().insert(s[0]));
        assert(ins_by_id(s, x).to_multiset() =~= s.to_multiset().insert(x));
    } else {
        lemma_multiset_commutative(seq![x], s);
        assert(seq![x].to_multiset() =~= Multiset::<T>::empty().insert(x));
        assert(ins_by_id(s, x).to_multiset() =~= s.to_multiset().insert(x));
    }
}

pub proof fn lemma_sort_multiset<T: IdKeyed>(s: Seq<T>)
    ensures
        sort_by_id(s).to_multiset() =~= s.to_multiset(),
    decreases s.len(),
{
    broadcast use group_to_multiset_ensures;
    broadcast use group_multiset_axioms;

    if s.len() > 0 {
        lemma_sort_multiset(s.drop_last());
        lemma_ins_multiset(sort_by_id(s.drop_last()), s.last());
        assert(s =~= s.drop_last().push(s.last()));
    }
}

pub proof fn lemma_ins_distinct<T: IdKeyed>(s: Seq<T>, x: T)
    requires
        distinct_ids(s),
        forall|k: int| 0 <= k < s.len() ==> #[trigger] s[k].id_key() != x.id_key(),
    ensures
        distinct_ids(ins_by_id(s, x)),
    decreases s.len(),
{
    lemma_ins_len(s, x);
    let r = ins_by_id(s, x);
    if s.len() == 0 {
    } else if lex_le(s[0].id_key(), x.id_key()) {
        let s1 = s.drop_first();
        assert forall|k: int| 0 <= k < s1.len() implies #[trigger] s1[k].id_key()
            != x.id_key() by {
            assert(s1[k] == s[k + 1]);
        }
        assert forall|i: int, j: int| 0 <= i < j < s1.len() implies #[trigger] s1[i].id_key()
            != #[trigger] s1[j].id_key() by {
            assert(s1[i] == s[i + 1]);
            assert(s1[j] == s[j + 1]);
        }
        lemma_ins_distinct(s1, x);
        lemma_ins_len(s1, x);
        let r1 = ins_by_id(s1, x);
        assert forall|i: int, j: int| 0 <= i < j < r.len() implies #[trigger] r[i].id_key()
            != #[trigger] r[j].id_key() by {
            if i == 0 {
                assert(r[0] == s[0]);
                assert(r[j] == r1[j - 1]);
                lemma_ins_index(s1, x, j - 1);
                if r1[j - 1] == x {
                } else {
                    let m = choose|m: int| 0 <= m < s1.len() && s1[m] == r1[j - 1];
                    assert(s[m + 1] == r1[j - 1]);
                    assert(s[0].id_key() != s[m + 1].id_key());
                }
            } else {
                assert(r[i] == r1[i - 1]);
                assert(r[j] == r1[j - 1]);
            }
        }
    } else {
        assert forall|i: int, j: int| 0 <= i < j < r.len() implies #[trigger] r[i].id_key()
            != #[trigger] r[j].id_key() by {
            if i == 0 {
                assert(r[0] == x);
                assert(r[j] == s[j - 1]);
            } else {
                assert(r[i] == s[i - 1]);
                assert(r[j] == s[j - 1]);
            }
        }
    }
}

pub proof fn lemma_sort_distinct<T: IdKeyed>(s: Seq<T>)
    requires
        distinct_ids(s),
    ensures
        distinct_ids(sort_by_id(s)),
    decreases s.len(),
{
    broadcast use group_to_multiset_ensures;
    broadcast use group_multiset_axioms;

    if s.len() > 0 {
        let s1 = s.drop_last();
        assert forall|i: int, j: int| 0 <= i < j < s1.len() implies #[trigger] s1[i].id_key()
            != #[trigger] s1[j].id_key() by {
            assert(s1[i] == s[i]);
            assert(s1[j] == s[j]);
        }
        lemma_sort_distinct(s1);
        lemma_sort_multiset(s1);
        lemma_sort_len(s1);
        let t = sort_by_id(s1);
        assert forall|k: int| 0 <= k < t.len() implies #[trigger] t[k].id_key()
            != s.last().id_key() by {
            assert(t.contains(t[k]));
            assert(t.to_multiset().count(t[k]) > 0);
            assert(s1.contains(t[k]));
            let m = choose|m: int| 0 <= m < s1.len() && s1[m] == t[k];
            assert(s[m] == t[k]);
            assert(s[m].id_key() != s[s.len() - 1].id_key());
        }
        lemma_ins_distinct(t, s.last());
    }
}

/// Two sequences sorted by identifier that hold the same records, with no
/// identifier repeated, are the same sequence: a sorted snapshot does not
/// depend on the order in which its records arrived.
pub proof fn lemma_sorted_unique_by_id<T: IdKeyed>(x: Seq<T>, y: Seq<T>)
    requires
        sorted_by_id(x),
        sorted_by_id(y),
        distinct_ids(x),
        x.to_multiset() == y.to_multiset(),
    ensures
        x == y,
    decreases x.len(),
{
    broadcast use group_to_multiset_ensures;
    broadcast use group_multiset_axioms;

    if x.len() == 0 {
        assert(y.to_multiset().len() == 0);
        assert(x =~= y);
    } else {
        assert(y.to_multiset().len() == x.len());
        assert(y.len() == x.len());
        assert(x.contains(x[0]));
        assert(x.to_multiset().count(x[0]) > 0);
        assert(y.contains(x[0]));
        let j = choose|j: int| 0 <= j < y.len() && y[j] == x[0];
        assert(y.contains(y[0]));
        assert(y.to_multiset().count(y[0]) > 0);
        assert(x.contains(y[0]));
        let i = choose|i: int| 0 <= i < x.len() && x[i] == y[0];
        if i == 0 {
        } else {
            // x[0] <= x[i] == y[0] and y[0] <= y[j] == x[0], so the keys agree,
            // and distinct identifiers force i == 0.
            assert(lex_le(x[0].id_key(), x[i].id_key()));
            if j == 0 {
                lemma_lex_le_refl(y[0].id_key());
            } else {
                assert(lex_le(y[0].id_key(), y[j].id_key()));
            }
            lemma_lex_le_antisym(x[0].id_key(), y[0].id_key());
            assert(x[0].id_key() != x[i].id_key());
            assert(false);
        }
        assert(x[0] == y[0]);
        let x1 = x.drop_first();
        let y1 = y.drop_first();
        assert forall|p: int, q: int| 0 <= p < q < x1.len() implies lex_le(
            #[trigger] x1[p].id_key(),
            #[trigger] x1[q].id_key(),
        ) by {
            assert(x1[p] == x[p + 1]);
            assert(x1[q] == x[q + 1]);
        }
        assert forall|p: int, q: int| 0 <= p < q < y1.len() implies lex_le(
            #[trigger] y1[p].id_key(),
            #[trigger] y1[q].id_key(),
        ) by {
            assert(y1[p] == y[p + 1]);
            assert(y1[q] == y[q + 1]);
        }
        assert forall|p: int, q: int| 0 <= p < q < x1.len() implies #[trigger] x1[p].id_key()
            != #[trigger] x1[q].id_key() by {
            assert(x1[p] == x[p + 1]);
            assert(x1[q] == x[q + 1]);
        }
        assert(x1 =~= x.remove(0));
        assert(y1 =~= y.remove(0));
        assert(x1.to_multiset() == x.to_multiset().remove(x[0]));
        assert(y1.to_multiset() == y.to_multiset().remove(y[0]));
        lemma_sorted_unique_by_id(x1, y1);
        assert(x =~= seq![x[0]] + x1);
        assert(y =~= seq![y[0]] + y1);
    }
}

/// Characterises `ins_by_id` by the insertion point: if everything before
/// `j` is not greater than `x` and the record at `j` (if any) is greater,
/// the insertion splits the sequence at `j`.
pub proof fn lemma_ins_at<T: IdKeyed>(s: Seq<T>, x: T, j: int)
    requires
        0 <= j <= s.len(),
        forall|t: int| 0 <= t < j ==> lex_le(#[trigger] s[t].id_key(), x.id_key()),
        j < s.len() ==> !lex_le(s[j].id_key(), x.id_key()),
    ensures
        ins_by_id(s, x) == s.take(j) + seq![x] + s.skip(j),
    decreases j,
{
    if j == 0 {
        assert(ins_by_id(s, x) =~= s.take(0) + seq![x] + s.skip(0));
    } else {
        assert(lex_le(s[0].id_key(), x.id_key()));
        let s1 = s.drop_first();
        assert forall|t: int| 0 <= t < j - 1 implies lex_le(
            #[trigger] s1[t].id_key(),
            x.id_key(),
        ) by {
            assert(s1[t] == s[t + 1]);
        }
        assert(j - 1 < s1.len() ==> s1[j - 1] == s[j]);
        lemma_ins_at(s1, x, j - 1);
        assert(ins_by_id(s, x) =~= seq![s[0]] + (s1.take(j - 1) + seq![x] + s1.skip(j - 1)));
        assert(seq![s[0]] + (s1.take(j - 1) + seq![x] + s1.skip(j - 1)) =~= s.take(j) + seq![x]
            + s.skip(j));
    }
}

/// Sorts the records of `v` by ascending identifier.
pub fn sort_vec_by_id<T: IdKeyed>(v: Vec<T>) -> (r: Vec<T>)
    ensures
        r@ == sort_by_id(v@),
{
    let ghost orig = v@;
    let mut input = v;
    let total = input.len();
    let mut out: Vec<T> = Vec::new();
    let mut k: usize = 0;
    proof {
        assert(orig.take(0) =~= Seq::<T>::empty());
        assert(input@ =~= orig.skip(0));
    }
    while input.len() > 0
        invariant
            k <= total,
            total == orig.len(),
            input@ == orig.skip(k as int),
            out@ == sort_by_id(orig.take(k as int)),
        decreases input@.len(),
    {
        proof {
            assert(input@[0] == orig[k as int]);
        }
        let x = input.remove(0);
        let mut j: usize = 0;
        while j < out.len()
            invariant_except_break
                j <= out.len(),
                forall|t: int| 0 <= t < j ==> lex_le(#[trigger] out@[t].id_key(), x.id_key()),
            ensures
                j <= out.len(),
                forall|t: int| 0 <= t < j ==> lex_le(#[trigger] out@[t].id_key(), x.id_key()),
                j < out.len() ==> !lex_le(out@[j as int].id_key(), x.id_key()),
            decreases out.len() - j,
        {
            if !str_le(out[j].id_str(), x.id_str()) {
                break ;
            }
            j = j + 1;
        }
        proof {
            lemma_ins_at(out@, x, j as int);
        }
        let ghost out_before = out@;
        out.insert(j, x);
        proof {
            assert(out@ =~= out_before.take(j as int) + seq![x] + out_before.skip(j as int));
            assert(out@ == ins_by_id(out_before, x));
            assert(orig.take(k + 1).drop_last() =~= orig.take(k as int));
            assert(orig.take(k + 1).last() == x);
            assert(input@ =~= orig.skip(k + 1));
        }
        k = k + 1;
    }
    proof {
        assert(orig.take(k as int) =~= orig);
    }
    out
}

/// The identifiers of the records of `s`, in order.
pub open spec fn ids_of<T: IdKeyed>(s: Seq<T>) -> Seq<Seq<char>> {
    Seq::new(s.len(), |k: int| s[k].id_key())
}

/// Rearranging records rearranges nothing in the multiset of their
/// identifiers.
pub proof fn lemma_ids_multiset<T: IdKeyed>(a: Seq<T>, b: Seq<T>)
    requires
        a.to_multiset() == b.to_multiset(),
    ensures
        ids_of(a).to_multiset() == ids_of(b).to_multiset(),
    decreases a.len(),
{
    broadcast use group_to_multiset_ensures;
    broadcast use group_multiset_axioms;

    if a.len() == 0 {
        assert(b.to_multiset().len() == 0);
        assert(b.len() == 0);
        assert(ids_of(a) =~= ids_of(b));
    } else {
        assert(b.to_multiset().len() == a.len());
        assert(b.len() == a.len());
        assert(a.contains(a[0]));
        assert(a.to_multiset().count(a[0]) > 0);
        assert(b.contains(a[0]));
        let j = choose|j: int| 0 <= j < b.len() && b[j] == a[0];
        let a1 = a.drop_first();
        let b1 = b.remove(j);
        assert(a1 =~= a.remove(0));
        assert(a1.to_multiset() == a.to_multiset().remove(a[0]));
        assert(b1.to_multiset() == b.to_multiset().remove(b[j]));
        lemma_ids_multiset(a1, b1);
        assert(ids_of(a1) =~= ids_of(a).remove(0));
        assert(ids_of(b1) =~= ids_of(b).remove(j));
        assert(ids_of(a).remove(0).to_multiset() == ids_of(a).to_multiset().remove(
            ids_of(a)[0],
        ));
        assert(ids_of(b).remove(j).to_multiset() == ids_of(b).to_multiset().remove(
            ids_of(b)[j],
        ));
        assert(ids_of(a)[0] == a[0].id_key());
        assert(ids_of(b)[j] == b[j].id_key());
        assert(ids_of(a).to_multiset().remove(a[0].id_key()) == ids_of(b).to_multiset().remove(
            a[0].id_key(),
        ));
        assert(ids_of(a).contains(ids_of(a)[0]));
        assert(ids_of(a).to_multiset().count(a[0].id_key()) > 0);
        assert(ids_of(b).contains(ids_of(b)[j]));
        assert(ids_of(b).to_multiset().count(a[0].id_key()) > 0);
        let k0 = a[0].id_key();
        let ma = ids_of(a).to_multiset();
        let mb = ids_of(b).to_multiset();
        assert forall|e: Seq<char>| ma.count(e) == mb.count(e) by {
            assert(ma.remove(k0).count(e) == mb.remove(k0).count(e));
            if e == k0 {
                assert(ma.remove(k0).count(e) + 1 == ma.count(e));
                assert(mb.remove(k0).count(e) + 1 == mb.count(e));
            } else {
                assert(ma.remove(k0).count(e) == ma.count(e));
                assert(mb.remove(k0).count(e) == mb.count(e));
            }
        }
        assert(ma =~= mb);
    }
}

/// Two sequences sorted by identifier that list the same identifiers list
/// them in the same positions.
pub proof fn lemma_sorted_same_ids<A: IdKeyed, B: IdKeyed>(x: Seq<A>, y: Seq<B>)
    requires
        sorted_by_id(x),
        sorted_by_id(y),
        ids_of(x).to_multiset() == ids_of(y).to_multiset(),
    ensures
        ids_of(x) == ids_of(y),
{
    let leq = |a: Seq<char>, b: Seq<char>| lex_le(a, b);
    assert forall|a: Seq<char>| #[trigger] leq(a, a) by {
        lemma_lex_le_refl(a);
    }
    assert forall|a: Seq<char>, b: Seq<char>| #[trigger] leq(a, b) && #[trigger] leq(b, a)
        implies a == b by {
        lemma_lex_le_antisym(a, b);
    }
    assert forall|a: Seq<char>, b: Seq<char>, c: Seq<char>|
        #[trigger] leq(a, b) && #[trigger] leq(b, c) implies leq(a, c) by {
        lemma_lex_le_trans(a, b, c);
    }
    assert forall|a: Seq<char>, b: Seq<char>| #![trigger leq(a, b)] leq(a, b) || leq(b, a) by {
        lemma_lex_le_total(a, b);
    }
    assert(vstd::relations::total_ordering(leq));
    assert forall|i: int, j: int| 0 <= i < j < ids_of(x).len() implies #[trigger] leq(
        ids_of(x)[i],
        ids_of(x)[j],
    ) by {
        assert(lex_le(x[i].id_key(), x[j].id_key()));
    }
    assert forall|i: int, j: int| 0 <= i < j < ids_of(y).len() implies #[trigger] leq(
        ids_of(y)[i],
        ids_of(y)[j],
    ) by {
        assert(lex_le(y[i].id_key(), y[j].id_key()));
    }
    assert(vstd::relations::sorted_by(ids_of(x), leq));
    assert(vstd::relations::sorted_by(ids_of(y), leq));
    vstd::seq_lib::lemma_sorted_unique(ids_of(x), ids_of(y), leq);
}

} // verus!
