//! Byte-lexicographic ordering of paths, and sorting of directory entries by
//! that order.

use vstd::prelude::*;
use vstd::multiset::Multiset;
use crate::entry::Entry;

verus! {

/// Byte-lexicographic "less than or equal": the empty sequence comes first,
/// then byte by byte, a shorter sequence before its extensions.
pub open spec fn lex_leq(a: Seq<u8>, b: Seq<u8>) -> bool
    decreases a.len(),
{
    if a.len() == 0 {
        true
    } else if b.len() == 0 {
        false
    } else if a[0] < b[0] {
        true
    } else if a[0] > b[0] {
        false
    } else {
        lex_leq(a.drop_first(), b.drop_first())
    }
}

/// Byte-lexicographic order is reflexive.
pub proof fn lemma_lex_leq_refl(a: Seq<u8>)
    ensures
        lex_leq(a, a),
    decreases a.len(),
{
    if a.len() != 0 {
        lemma_lex_leq_refl(a.drop_first());
    }
}

/// Any two byte sequences are comparable.
pub proof fn lemma_lex_leq_total(a: Seq<u8>, b: Seq<u8>)
    ensures
        lex_leq(a, b) || lex_leq(b, a),
    decreases a.len(),
{
    if a.len() != 0 && b.len() != 0 && a[0] == b[0] {
        lemma_lex_leq_total(a.drop_first(), b.drop_first());
    }
}

/// Byte-lexicographic order is transitive.
pub proof fn lemma_lex_leq_trans(a: Seq<u8>, b: Seq<u8>, c: Seq<u8>)
    requires
        lex_leq(a, b),
        lex_leq(b, c),
    ensures
        lex_leq(a, c),
    decreases a.len(),
{
    if a.len() != 0 && b.len() != 0 && c.len() != 0 && a[0] == b[0] && b[0] == c[0] {
        lemma_lex_leq_trans(a.drop_first(), b.drop_first(), c.drop_first());
    }
}

/// Byte-lexicographic order is antisymmetric.
pub proof fn lemma_lex_leq_antisym(a: Seq<u8>, b: Seq<u8>)
    requires
        lex_leq(a, b),
        lex_leq(b, a),
    ensures
        a == b,
    decreases a.len(),
{
    if a.len() == 0 {
        assert(b.len() == 0);
        assert(a =~= b);
    } else {
        assert(a[0] == b[0]);
        lemma_lex_leq_antisym(a.drop_first(), b.drop_first());
        assert forall|i: int| 0 <= i < a.len() implies a[i] == b[i] by {
            if i >= 1 {
                assert(a[i] == a.drop_first()[i - 1]);
                assert(b[i] == b.drop_first()[i - 1]);
            }
        }
        assert(a =~= b);
    }
}

/// Entries are ordered by the raw bytes of their full paths.
pub open spec fn entry_leq(a: Entry, b: Entry) -> bool {
    lex_leq(a.path@, b.path@)
}

/// A sequence of entries in ascending path order.
pub open spec fn entries_sorted(s: Seq<Entry>) -> bool {
    forall|i: int, j: int| 0 <= i < j < s.len() ==> entry_leq(s[i], s[j])
}

/// No two entries of the sequence share a path.
pub open spec fn distinct_paths(s: Seq<Entry>) -> bool {
    forall|i: int, j: int| 0 <= i < j < s.len() ==> s[i].path@ != s[j].path@
}

/// A sorted arrangement of entries with distinct paths is unique: two sorted
/// sequences holding the same entries are equal. So sorting is deterministic,
/// and listing an unchanged directory twice renders identical output.
pub proof fn lemma_sorted_unique(a: Seq<Entry>, b: Seq<Entry>)
    requires
        entries_sorted(a),
        entries_sorted(b),
        a.to_multiset() == b.to_multiset(),
        distinct_paths(a),
    ensures
        a == b,
    decreases a.len(),
{
    broadcast use vstd::seq_lib::group_to_multiset_ensures;
    broadcast use vstd::multiset::group_multiset_axioms;

    if a.len() == 0 {
        assert(a.to_multiset().len() == 0);
        assert(b.len() == 0);
        assert(a =~= b);
    } else {
        assert(a.len() == a.to_multiset().len());
        assert(b.len() == b.to_multiset().len());
        assert(b.len() == a.len());
        assert(a.contains(a[0])) by {
            assert(a[0] == a[0]);
        }
        assert(b.to_multiset().count(a[0]) > 0);
        assert(b.contains(a[0]));
        let j = choose|j: int| 0 <= j < b.len() && b[j] == a[0];
        assert(a.to_multiset().count(b[0]) > 0) by {
            assert(b.contains(b[0]));
        }
        assert(a.contains(b[0]));
        let k = choose|k: int| 0 <= k < a.len() && a[k] == b[0];
        if j > 0 {
            assert(entry_leq(b[0], b[j]));
        } else {
            lemma_lex_leq_refl(b[0].path@);
        }
        if k > 0 {
            assert(entry_leq(a[0], a[k]));
        } else {
            lemma_lex_leq_refl(a[0].path@);
        }
        lemma_lex_leq_antisym(a[0].path@, b[0].path@);
        assert(a[0].path@ == b[0].path@);
        assert(a[0] == b[0]) by {
            if k != 0 {
                assert(a[0].path@ != a[k].path@);
            }
        }
        let a1 = a.drop_first();
        let b1 = b.drop_first();
        assert(a1 =~= a.remove(0));
        assert(b1 =~= b.remove(0));
        assert(a1.to_multiset() == b1.to_multiset()) by {
            assert(a.remove(0).to_multiset() == a.to_multiset().remove(a[0]));
            assert(b.remove(0).to_multiset() == b.to_multiset().remove(b[0]));
        }
        assert(entries_sorted(a1) && distinct_paths(a1)) by {
            assert(forall|i: int| 0 <= i < a1.len() ==> a1[i] == a[i + 1]);
        }
        assert(entries_sorted(b1)) by {
            assert(forall|i: int| 0 <= i < b1.len() ==> b1[i] == b[i + 1]);
        }
        lemma_sorted_unique(a1, b1);
        assert forall|i: int| 0 <= i < a.len() implies a[i] == b[i] by {
            if i >= 1 {
                assert(a[i] == a1[i - 1]);
                assert(b[i] == b1[i - 1]);
            }
        }
        assert(a =~= b);
    }
}

/// Decide `lex_leq` on two byte vectors.
pub fn bytes_leq(a: &Vec<u8>, b: &Vec<u8>) -> (r: bool)
    ensures
        r == lex_leq(a@, b@),
{
    let mut i: usize = 0;
    assert(a@.skip(0) =~= a@);
    assert(b@.skip(0) =~= b@);
    loop
        invariant
            i <= a@.len(),
            i <= b@.len(),
            lex_leq(a@, b@) == lex_leq(a@.skip(i as int), b@.skip(i as int)),
        decreases a@.len() - i,
    {
        if i >= a.len() {
            assert(a@.skip(i as int).len() == 0);
            return true;
        }
        if i >= b.len() {
            assert(b@.skip(i as int).len() == 0);
            assert(a@.skip(i as int).len() > 0);
            return false;
        }
        let x = a[i];
        let y = b[i];
        assert(a@.skip(i as int)[0] == a@[i as int]);
        assert(b@.skip(i as int)[0] == b@[i as int]);
        if x < y {
            return true;
        }
        if x > y {
            return false;
        }
        assert(a@.skip(i as int).drop_first() =~= a@.skip(i as int + 1));
        assert(b@.skip(i as int).drop_first() =~= b@.skip(i as int + 1));
        i = i + 1;
    }
}

/// Sort entries ascending by path bytes: the result is sorted and holds
/// exactly the input entries.
pub fn sort_entries(entries: Vec<Entry>) -> (r: Vec<Entry>)
    ensures
        r@.to_multiset() == entries@.to_multiset(),
        r@.len() == entries@.len(),
        entries_sorted(r@),
{
    broadcast use vstd::seq_lib::group_to_multiset_ensures;
    broadcast use vstd::multiset::group_multiset_axioms;

    let mut rest = entries;
    let mut out: Vec<Entry> = Vec::new();
    let ghost all = rest@.to_multiset();
    proof {
        assert(out@.to_multiset().add(rest@.to_multiset()) =~= all);
    }
    while rest.len() > 0
        invariant
            out@.to_multiset().add(rest@.to_multiset()) == all,
            out@.len() + rest@.len() == all.len(),
            entries_sorted(out@),
            forall|i: int, j: int|
                0 <= i < out@.len() && 0 <= j < rest@.len() ==> entry_leq(out@[i], rest@[j]),
        decreases rest@.len(),
    {
        let mut m: usize = 0;
        let mut k: usize = 1;
        proof {
            lemma_lex_leq_refl(rest@[0].path@);
        }
        while k < rest.len()
            invariant
                m < k,
                k <= rest@.len(),
                rest@.len() > 0,
                forall|j: int| 0 <= j < k ==> entry_leq(rest@[m as int], rest@[j]),
            decreases rest@.len() - k,
        {
            if !bytes_leq(&rest[m].path, &rest[k].path) {
                proof {
                    lemma_lex_leq_total(rest@[m as int].path@, rest@[k as int].path@);
                    assert forall|j: int| 0 <= j < k + 1 implies entry_leq(
                        rest@[k as int],
                        rest@[j],
                    ) by {
                        if j == k {
                            lemma_lex_leq_refl(rest@[k as int].path@);
                        } else {
                            lemma_lex_leq_trans(
                                rest@[k as int].path@,
                                rest@[m as int].path@,
                                rest@[j].path@,
                            );
                        }
                    }
                }
                m = k;
            }
            k = k + 1;
        }
        let ghost old_rest = rest@;
        let ghost old_out = out@;
        let x = rest.remove(m);
        out.push(x);
        proof {
            vstd::seq_lib::to_multiset_remove(old_rest, m as int);
            vstd::seq_lib::to_multiset_build(old_out, x);
            assert(old_rest.remove(m as int).to_multiset() =~= old_rest.to_multiset().remove(x));
            assert(old_out.push(x).to_multiset() =~= old_out.to_multiset().insert(x));
            assert(old_rest.contains(x)) by {
                assert(old_rest[m as int] == x);
            }
            vstd::seq_lib::to_multiset_contains(old_rest, x);
            assert(old_rest.to_multiset().count(x) >= 1);
            assert(out@.to_multiset().add(rest@.to_multiset()) =~= all);
            assert(entries_sorted(out@)) by {
                assert(forall|i: int|
                    0 <= i < old_out.len() ==> entry_leq(old_out[i], x) && out@[i] == old_out[i]);
            }
            assert forall|i: int, j: int|
                0 <= i < out@.len() && 0 <= j < rest@.len() implies entry_leq(
                out@[i],
                rest@[j],
            ) by {
                assert(rest@[j] == if j < m as int {
                    old_rest[j]
                } else {
                    old_rest[j + 1]
                });
            }
        }
    }
    proof {
        assert(rest@ =~= Seq::<Entry>::empty());
        assert(rest@.to_multiset() =~= Multiset::<Entry>::empty());
        assert(out@.to_multiset().add(Multiset::<Entry>::empty()) =~= out@.to_multiset());
    }
    out
}

} // verus!
