//! Key/value tables kept ordered by key, as an ordered map of strings
//! holds them: each key once, keys ascending in `str` order.
use vstd::prelude::*;

use crate::template::{pairs_get, pairs_map};
use crate::text::{chars_of, eq_chars};

verus! {

/// `a < b` in `str` order: lexicographic by character code (UTF-8 byte
/// order gives the same order as code-point order).
pub open spec fn str_lt(a: Seq<char>, b: Seq<char>) -> bool
    decreases a.len(),
{
    if a.len() == 0 {
        b.len() > 0
    } else if b.len() == 0 {
        false
    } else if a[0] != b[0] {
        a[0] < b[0]
    } else {
        str_lt(a.drop_first(), b.drop_first())
    }
}

pub proof fn lemma_lt_irreflexive(a: Seq<char>)
    ensures
        !str_lt(a, a),
    decreases a.len(),
{
    if a.len() > 0 {
        lemma_lt_irreflexive(a.drop_first());
    }
}

pub proof fn lemma_lt_transitive(a: Seq<char>, b: Seq<char>, c: Seq<char>)
    requires
        str_lt(a, b),
        str_lt(b, c),
    ensures
        str_lt(a, c),
    decreases a.len(),
{
    if a.len() > 0 && b.len() > 0 && c.len() > 0 && a[0] == b[0] && b[0] == c[0] {
        lemma_lt_transitive(a.drop_first(), b.drop_first(), c.drop_first());
    }
}

pub proof fn lemma_lt_total(a: Seq<char>, b: Seq<char>)
    requires
        a != b,
    ensures
        str_lt(a, b) || str_lt(b, a),
    decreases a.len(),
{
    if a.len() > 0 && b.len() > 0 && a[0] == b[0] {
        if a.drop_first() == b.drop_first() {
            assert(a =~= seq![a[0]] + a.drop_first());
            assert(b =~= seq![b[0]] + b.drop_first());
        }
        lemma_lt_total(a.drop_first(), b.drop_first());
    }
    if a.len() == 0 && b.len() == 0 {
        assert(a =~= b);
    }
}

/// Whether `a < b` in `str` order.
pub fn str_less(a: &Vec<char>, b: &Vec<char>) -> (r: bool)
    ensures
        r == str_lt(a@, b@),
{
    let mut i: usize = 0;
    assert(a@.skip(0) =~= a@);
    assert(b@.skip(0) =~= b@);
    while i < a.len() && i < b.len()
        invariant
            0 <= i <= a.len(),
            i <= b.len(),
            str_lt(a@, b@) == str_lt(a@.skip(i as int), b@.skip(i as int)),
        decreases a.len() - i,
    {
        assert(a@.skip(i as int).drop_first() =~= a@.skip(i + 1));
        assert(b@.skip(i as int).drop_first() =~= b@.skip(i + 1));
        if a[i] != b[i] {
            return a[i] < b[i];
        }
        i = i + 1;
    }
    i == a.len() && i < b.len()
}

pub proof fn lemma_lt_asymmetric(a: Seq<char>, b: Seq<char>)
    requires
        str_lt(a, b),
    ensures
        !str_lt(b, a),
{
    if str_lt(b, a) {
        lemma_lt_transitive(a, b, a);
        lemma_lt_irreflexive(a);
    }
}

/// A table's pairs as text.
pub open spec fn pairs_view(p: Seq<(String, String)>) -> Seq<(Seq<char>, Seq<char>)> {
    p.map_values(|x: (String, String)| (x.0@, x.1@))
}

/// `(k, v)` put into an ordered table: replacing the binding of `k`, else
/// before the first key that sorts after `k`.
pub open spec fn ins(p: Seq<(Seq<char>, Seq<char>)>, k: Seq<char>, v: Seq<char>) -> Seq<(Seq<char>, Seq<char>)>
    decreases p.len(),
{
    if p.len() == 0 {
        seq![(k, v)]
    } else if p[0].0 == k {
        seq![(k, v)] + p.drop_first()
    } else if str_lt(k, p[0].0) {
        seq![(k, v)] + p
    } else {
        seq![p[0]] + ins(p.drop_first(), k, v)
    }
}

/// Every pair of `xs` put into `p` in turn.
pub open spec fn ins_all(p: Seq<(Seq<char>, Seq<char>)>, xs: Seq<(Seq<char>, Seq<char>)>) -> Seq<
    (Seq<char>, Seq<char>),
>
    decreases xs.len(),
{
    if xs.len() == 0 {
        p
    } else {
        let r = ins_all(p, xs.drop_last());
        ins(r, xs.last().0, xs.last().1)
    }
}

proof fn lemma_ins_at(s: Seq<(Seq<char>, Seq<char>)>, p: int, k: Seq<char>, v: Seq<char>)
    requires
        0 <= p <= s.len(),
        forall|j: int| 0 <= j < p ==> str_lt(#[trigger] s[j].0, k),
        p < s.len() ==> !str_lt(s[p].0, k),
    ensures
        ins(s, k, v) == if p < s.len() && s[p].0 == k {
            s.update(p, (k, v))
        } else {
            s.insert(p, (k, v))
        },
    decreases p,
{
    if p == 0 {
        if s.len() == 0 {
            assert(s.insert(0, (k, v)) =~= seq![(k, v)]);
        } else if s[0].0 == k {
            assert(s.update(0, (k, v)) =~= seq![(k, v)] + s.drop_first());
        } else {
            lemma_lt_total(s[0].0, k);
            assert(s.insert(0, (k, v)) =~= seq![(k, v)] + s);
        }
    } else {
        assert(str_lt(s[0].0, k));
        lemma_lt_asymmetric(s[0].0, k);
        if s[0].0 == k {
            lemma_lt_irreflexive(k);
        }
        let t = s.drop_first();
        assert forall|j: int| 0 <= j < p - 1 implies str_lt(#[trigger] t[j].0, k) by {
            assert(t[j] == s[j + 1]);
        }
        lemma_ins_at(t, p - 1, k, v);
        if p < s.len() && s[p].0 == k {
            assert(s.update(p, (k, v)) =~= seq![s[0]] + t.update(p - 1, (k, v)));
        } else {
            assert(s.insert(p, (k, v)) =~= seq![s[0]] + t.insert(p - 1, (k, v)));
        }
    }
}

/// Keys strictly ascending, so each occurs once.
pub open spec fn keys_sorted(p: Seq<(String, String)>) -> bool {
    forall|i: int, j: int| 0 <= i < j < p.len() ==> str_lt(#[trigger] p[i].0@, #[trigger] p[j].0@)
}

proof fn lemma_absent(p: Seq<(String, String)>, k: Seq<char>)
    requires
        forall|j: int| 0 <= j < p.len() ==> p[j].0@ != k,
    ensures
        pairs_get(p, k) is None,
    decreases p.len(),
{
    if p.len() > 0 {
        lemma_absent(p.drop_first(), k);
    }
}

proof fn lemma_get_insert(p: Seq<(String, String)>, i: int, x: (String, String), q: Seq<char>)
    requires
        0 <= i <= p.len(),
        forall|j: int| 0 <= j < p.len() ==> p[j].0@ != x.0@,
    ensures
        pairs_get(p.insert(i, x), q) == if q == x.0@ {
            Some(x.1@)
        } else {
            pairs_get(p, q)
        },
    decreases i,
{
    if i > 0 {
        assert(p.insert(i, x)[0] == p[0]);
        assert(p.insert(i, x).drop_first() =~= p.drop_first().insert(i - 1, x));
        lemma_get_insert(p.drop_first(), i - 1, x, q);
    } else {
        assert(p.insert(i, x)[0] == x);
        assert(p.insert(i, x).drop_first() =~= p);
        if q == x.0@ {
        } else {
        }
    }
}

proof fn lemma_get_update(p: Seq<(String, String)>, i: int, x: (String, String), q: Seq<char>)
    requires
        0 <= i < p.len(),
        p[i].0@ == x.0@,
        forall|j: int| 0 <= j < i ==> p[j].0@ != x.0@,
    ensures
        pairs_get(p.update(i, x), q) == if q == x.0@ {
            Some(x.1@)
        } else {
            pairs_get(p, q)
        },
    decreases i,
{
    if i > 0 {
        assert(p.update(i, x)[0] == p[0]);
        assert(p.update(i, x).drop_first() =~= p.drop_first().update(i - 1, x));
        lemma_get_update(p.drop_first(), i - 1, x, q);
    } else {
        assert(p.update(i, x)[0] == x);
        assert(p.update(i, x).drop_first() =~= p.drop_first());
    }
}

/// A list of bindings read as an ordered table: each bound in turn, so a
/// later binding of a key replaces an earlier one.
pub open spec fn table_of(p: Seq<(String, String)>) -> Seq<(Seq<char>, Seq<char>)> {
    ins_all(Seq::empty(), pairs_view(p))
}

/// The bindings of `p` as an ordered table (see [`table_of`]).
pub fn sorted_table(p: &Vec<(String, String)>) -> (r: Vec<(String, String)>)
    ensures
        keys_sorted(r@),
        pairs_view(r@) == table_of(p@),
{
    let mut out: Vec<(String, String)> = Vec::new();
    let ghost pv = pairs_view(p@);
    let mut i: usize = 0;
    assert(pv.take(0) =~= Seq::<(Seq<char>, Seq<char>)>::empty());
    assert(pairs_view(out@) =~= Seq::<(Seq<char>, Seq<char>)>::empty());
    while i < p.len()
        invariant
            0 <= i <= p.len(),
            pv == pairs_view(p@),
            keys_sorted(out@),
            pairs_view(out@) == ins_all(Seq::empty(), pv.take(i as int)),
        decreases p.len() - i,
    {
        assert(pv.take(i + 1).drop_last() =~= pv.take(i as int));
        insert_sorted(&mut out, p[i].0.as_str(), p[i].1.as_str());
        i = i + 1;
    }
    assert(pv.take(p.len() as int) =~= pv);
    out
}

/// Binds `k` to `v` in an ordered table, keeping it ordered: an existing
/// binding of `k` is replaced in place, else the pair goes where `k` sorts.
pub fn insert_sorted(pairs: &mut Vec<(String, String)>, k: &str, v: &str)
    requires
        keys_sorted(old(pairs)@),
    ensures
        keys_sorted(final(pairs)@),
        pairs_map(final(pairs)@) == pairs_map(old(pairs)@).insert(k@, v@),
        pairs_view(final(pairs)@) == ins(pairs_view(old(pairs)@), k@, v@),
{
    let want = chars_of(k);
    let mut p: usize = 0;
    while p < pairs.len()
        invariant
            0 <= p <= pairs.len(),
            want@ == k@,
            keys_sorted(pairs@),
            forall|j: int| 0 <= j < p ==> str_lt(#[trigger] pairs@[j].0@, k@),
        ensures
            0 <= p <= pairs.len(),
            forall|j: int| 0 <= j < p ==> str_lt(#[trigger] pairs@[j].0@, k@),
            p < pairs.len() ==> !str_lt(pairs@[p as int].0@, k@),
        decreases pairs.len() - p,
    {
        let key = chars_of(pairs[p].0.as_str());
        if !str_less(&key, &want) {
            break;
        }
        p = p + 1;
    }
    let ghost old_p = pairs@;
    let entry = (String::from_str(k), String::from_str(v));
    proof {
        let sv = pairs_view(old_p);
        assert forall|j: int| 0 <= j < p implies str_lt(#[trigger] sv[j].0, k@) by {
            assert(sv[j].0 == old_p[j].0@);
        }
        lemma_ins_at(sv, p as int, k@, v@);
        if p < old_p.len() {
            assert(pairs_view(old_p.update(p as int, entry)) =~= sv.update(p as int, (k@, v@)));
            assert(sv[p as int].0 == old_p[p as int].0@);
        }
        assert(pairs_view(old_p.insert(p as int, entry)) =~= sv.insert(p as int, (k@, v@)));
    }
    proof {
        assert forall|j: int| 0 <= j < p implies old_p[j].0@ != k@ by {
            if old_p[j].0@ == k@ {
                lemma_lt_irreflexive(k@);
            }
        }
    }
    if p < pairs.len() && eq_chars(&chars_of(pairs[p].0.as_str()), &want) {
        proof {
            assert forall|q: Seq<char>| pairs_get(old_p.update(p as int, entry), q) == if q == k@ {
                Some(v@)
            } else {
                pairs_get(old_p, q)
            } by {
                lemma_get_update(old_p, p as int, entry, q);
            }
            assert(pairs_map(old_p.update(p as int, entry)) =~= pairs_map(old_p).insert(k@, v@));
        }
        pairs.set(p, entry);
        assert(pairs@ == old_p.update(p as int, entry));
    } else {
        proof {
            // every key from `p` on sorts after `k`
            assert forall|j: int| p <= j < old_p.len() implies str_lt(k@, #[trigger] old_p[j].0@) by {
                let kp = old_p[p as int].0@;
                assert(!str_lt(kp, k@));
                assert(kp != k@);
                lemma_lt_total(kp, k@);
                if j > p {
                    lemma_lt_transitive(k@, kp, old_p[j].0@);
                }
            }
            assert forall|j: int| 0 <= j < old_p.len() implies old_p[j].0@ != k@ by {
                if j >= p {
                    if old_p[j].0@ == k@ {
                        lemma_lt_irreflexive(k@);
                    }
                }
            }
            assert forall|q: Seq<char>| pairs_get(old_p.insert(p as int, entry), q) == if q == k@ {
                Some(v@)
            } else {
                pairs_get(old_p, q)
            } by {
                lemma_get_insert(old_p, p as int, entry, q);
            }
            assert(pairs_map(old_p.insert(p as int, entry)) =~= pairs_map(old_p).insert(k@, v@));
        }
        pairs.insert(p, entry);
        assert(pairs@ == old_p.insert(p as int, entry));
        proof {
            let np = pairs@;
            assert forall|i: int, j: int| 0 <= i < j < np.len() implies str_lt(
                #[trigger] np[i].0@,
                #[trigger] np[j].0@,
            ) by {
                if j < p {
                    assert(np[i] == old_p[i] && np[j] == old_p[j]);
                } else if j == p {
                    assert(np[i] == old_p[i]);
                } else if i < p {
                    assert(np[i] == old_p[i] && np[j] == old_p[j - 1]);
                    if j - 1 >= p {
                        lemma_lt_transitive(old_p[i].0@, k@, old_p[j - 1].0@);
                    }
                } else if i == p {
                    assert(np[j] == old_p[j - 1]);
                } else {
                    assert(np[i] == old_p[i - 1] && np[j] == old_p[j - 1]);
                }
            }
        }
    }
}

} // verus!
