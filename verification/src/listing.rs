//! The listing pipeline over collected entries: hide dotfiles, sort by path,
//! partition into files and directories, and total the files' block counts.

use vstd::prelude::*;
use vstd::multiset::Multiset;
use crate::entry::{block_count, is_hidden, is_dotfile, get_block_size, Entry};
use crate::order::{distinct_paths, entries_sorted, entry_leq, sort_entries};

verus! {

/// The entries that a default listing shows: the input with hidden entries
/// removed, in input order.
pub open spec fn visible_of(s: Seq<Entry>) -> Seq<Entry>
    decreases s.len(),
{
    if s.len() == 0 {
        s
    } else {
        let pre = visible_of(s.drop_last());
        if is_hidden(s.last()) {
            pre
        } else {
            pre.push(s.last())
        }
    }
}

/// The entries whose metadata could be fetched, in input order. An entry
/// without metadata cannot be classified or described, so the listing
/// excludes it entirely.
pub open spec fn readable_of(s: Seq<Entry>) -> Seq<Entry>
    decreases s.len(),
{
    if s.len() == 0 {
        s
    } else {
        let pre = readable_of(s.drop_last());
        if s.last().metadata is Some {
            pre.push(s.last())
        } else {
            pre
        }
    }
}

/// The non-directory entries of a sequence, in input order.
pub open spec fn files_of(s: Seq<Entry>) -> Seq<Entry>
    decreases s.len(),
{
    if s.len() == 0 {
        s
    } else {
        let pre = files_of(s.drop_last());
        if s.last().is_dir {
            pre
        } else {
            pre.push(s.last())
        }
    }
}

/// The directory entries of a sequence, in input order.
pub open spec fn dirs_of(s: Seq<Entry>) -> Seq<Entry>
    decreases s.len(),
{
    if s.len() == 0 {
        s
    } else {
        let pre = dirs_of(s.drop_last());
        if s.last().is_dir {
            pre.push(s.last())
        } else {
            pre
        }
    }
}

/// The total of the entries' block counts.
pub open spec fn sum_blocks(s: Seq<Entry>) -> int
    decreases s.len(),
{
    if s.len() == 0 {
        0
    } else {
        sum_blocks(s.drop_last()) + block_count(s.last())
    }
}

/// A block total is never negative.
pub proof fn lemma_sum_blocks_nonneg(s: Seq<Entry>)
    ensures
        sum_blocks(s) >= 0,
    decreases s.len(),
{
    if s.len() > 0 {
        lemma_sum_blocks_nonneg(s.drop_last());
    }
}

/// Partition completeness: the files and the directories together hold
/// exactly the partitioned entries; none is dropped or duplicated.
pub proof fn lemma_partition_conserves(s: Seq<Entry>)
    ensures
        files_of(s).len() + dirs_of(s).len() == s.len(),
        files_of(s).to_multiset().add(dirs_of(s).to_multiset()) == s.to_multiset(),
    decreases s.len(),
{
    broadcast use vstd::seq_lib::group_to_multiset_ensures;
    broadcast use vstd::multiset::group_multiset_axioms;

    if s.len() == 0 {
        assert(s.to_multiset() =~= Multiset::<Entry>::empty());
        assert(files_of(s).to_multiset().add(dirs_of(s).to_multiset()) =~= s.to_multiset());
    } else {
        let d = s.drop_last();
        lemma_partition_conserves(d);
        assert(d.push(s.last()) =~= s);
        assert(d.push(s.last()).to_multiset() =~= d.to_multiset().insert(s.last()));
        if s.last().is_dir {
            assert(dirs_of(s).to_multiset() =~= dirs_of(d).to_multiset().insert(s.last()));
        } else {
            assert(files_of(s).to_multiset() =~= files_of(d).to_multiset().insert(s.last()));
        }
        assert(files_of(s).to_multiset().add(dirs_of(s).to_multiset()) =~= s.to_multiset());
    }
}

/// Partition exclusivity: every file is a non-directory that came from the
/// input, every directory a directory that came from it; and every entry of
/// the input lands in the partition its classification names.
pub proof fn lemma_partition_membership(s: Seq<Entry>)
    ensures
        forall|i: int|
            0 <= i < files_of(s).len() ==> !files_of(s)[i].is_dir && s.contains(files_of(s)[i]),
        forall|i: int|
            0 <= i < dirs_of(s).len() ==> dirs_of(s)[i].is_dir && s.contains(dirs_of(s)[i]),
        forall|i: int|
            0 <= i < s.len() && !s[i].is_dir ==> #[trigger] files_of(s).contains(s[i]),
        forall|i: int|
            0 <= i < s.len() && s[i].is_dir ==> #[trigger] dirs_of(s).contains(s[i]),
    decreases s.len(),
{
    if s.len() > 0 {
        let d = s.drop_last();
        lemma_partition_membership(d);
        assert forall|i: int|
            0 <= i < files_of(s).len() implies !files_of(s)[i].is_dir && s.contains(
            files_of(s)[i],
        ) by {
            if !s.last().is_dir && i == files_of(s).len() - 1 {
                assert(files_of(s)[i] == s.last());
                assert(s.contains(s.last())) by {
                    assert(s[s.len() - 1] == s.last());
                }
            } else {
                assert(files_of(s)[i] == files_of(d)[i]);
                assert(d.contains(files_of(d)[i]));
                let j = choose|j: int| 0 <= j < d.len() && d[j] == files_of(d)[i];
                assert(s[j] == files_of(s)[i]);
            }
        }
        assert forall|i: int|
            0 <= i < dirs_of(s).len() implies dirs_of(s)[i].is_dir && s.contains(
            dirs_of(s)[i],
        ) by {
            if s.last().is_dir && i == dirs_of(s).len() - 1 {
                assert(dirs_of(s)[i] == s.last());
                assert(s[s.len() - 1] == s.last());
            } else {
                assert(dirs_of(s)[i] == dirs_of(d)[i]);
                assert(d.contains(dirs_of(d)[i]));
                let j = choose|j: int| 0 <= j < d.len() && d[j] == dirs_of(d)[i];
                assert(s[j] == dirs_of(s)[i]);
            }
        }
        assert forall|i: int|
            0 <= i < s.len() && !s[i].is_dir implies #[trigger] files_of(s).contains(s[i]) by {
            if i == s.len() - 1 {
                assert(files_of(s)[files_of(s).len() - 1] == s[i]);
            } else {
                assert(d[i] == s[i]);
                assert(files_of(d).contains(d[i]));
                let j = choose|j: int| 0 <= j < files_of(d).len() && files_of(d)[j] == d[i];
                assert(files_of(s)[j] == s[i]);
            }
        }
        assert forall|i: int|
            0 <= i < s.len() && s[i].is_dir implies #[trigger] dirs_of(s).contains(s[i]) by {
            if i == s.len() - 1 {
                assert(dirs_of(s)[dirs_of(s).len() - 1] == s[i]);
            } else {
                assert(d[i] == s[i]);
                assert(dirs_of(d).contains(d[i]));
                let j = choose|j: int| 0 <= j < dirs_of(d).len() && dirs_of(d)[j] == d[i];
                assert(dirs_of(s)[j] == s[i]);
            }
        }
    }
}

/// Partitioning a sorted sequence leaves each partition sorted.
pub proof fn lemma_partition_sorted(s: Seq<Entry>)
    requires
        entries_sorted(s),
    ensures
        entries_sorted(files_of(s)),
        entries_sorted(dirs_of(s)),
    decreases s.len(),
{
    if s.len() > 0 {
        let d = s.drop_last();
        assert(entries_sorted(d)) by {
            assert(forall|i: int, j: int| 0 <= i < j < d.len() ==> d[i] == s[i] && d[j] == s[j]);
        }
        lemma_partition_sorted(d);
        lemma_partition_membership(d);
        assert forall|i: int, j: int|
            0 <= i < j < files_of(s).len() implies entry_leq(files_of(s)[i], files_of(s)[j]) by {
            if !s.last().is_dir && j == files_of(s).len() - 1 {
                assert(files_of(s)[j] == s.last());
                assert(files_of(s)[i] == files_of(d)[i]);
                assert(d.contains(files_of(d)[i]));
                let k = choose|k: int| 0 <= k < d.len() && d[k] == files_of(d)[i];
                assert(s[k] == files_of(s)[i]);
                assert(entry_leq(s[k], s[s.len() - 1]));
            } else {
                assert(files_of(s)[i] == files_of(d)[i] && files_of(s)[j] == files_of(d)[j]);
            }
        }
        assert forall|i: int, j: int|
            0 <= i < j < dirs_of(s).len() implies entry_leq(dirs_of(s)[i], dirs_of(s)[j]) by {
            if s.last().is_dir && j == dirs_of(s).len() - 1 {
                assert(dirs_of(s)[j] == s.last());
                assert(dirs_of(s)[i] == dirs_of(d)[i]);
                assert(d.contains(dirs_of(d)[i]));
                let k = choose|k: int| 0 <= k < d.len() && d[k] == dirs_of(d)[i];
                assert(s[k] == dirs_of(s)[i]);
                assert(entry_leq(s[k], s[s.len() - 1]));
            } else {
                assert(dirs_of(s)[i] == dirs_of(d)[i] && dirs_of(s)[j] == dirs_of(d)[j]);
            }
        }
    }
}

/// What visibility filtering keeps: exactly the non-hidden entries of the
/// input, and nothing else.
pub proof fn lemma_visible_membership(s: Seq<Entry>)
    ensures
        forall|i: int|
            0 <= i < visible_of(s).len() ==> !is_hidden(visible_of(s)[i]) && s.contains(
                visible_of(s)[i],
            ),
        forall|i: int|
            0 <= i < s.len() && !is_hidden(s[i]) ==> #[trigger] visible_of(s).contains(s[i]),
    decreases s.len(),
{
    if s.len() > 0 {
        let d = s.drop_last();
        lemma_visible_membership(d);
        assert forall|i: int|
            0 <= i < visible_of(s).len() implies !is_hidden(visible_of(s)[i]) && s.contains(
            visible_of(s)[i],
        ) by {
            if !is_hidden(s.last()) && i == visible_of(s).len() - 1 {
                assert(visible_of(s)[i] == s.last());
                assert(s[s.len() - 1] == s.last());
            } else {
                assert(visible_of(s)[i] == visible_of(d)[i]);
                assert(d.contains(visible_of(d)[i]));
                let j = choose|j: int| 0 <= j < d.len() && d[j] == visible_of(d)[i];
                assert(s[j] == visible_of(s)[i]);
            }
        }
        assert forall|i: int|
            0 <= i < s.len() && !is_hidden(s[i]) implies #[trigger] visible_of(s).contains(
            s[i],
        ) by {
            if i == s.len() - 1 {
                assert(visible_of(s)[visible_of(s).len() - 1] == s[i]);
            } else {
                assert(d[i] == s[i]);
                assert(visible_of(d).contains(d[i]));
                let j = choose|j: int| 0 <= j < visible_of(d).len() && visible_of(d)[j] == d[i];
                assert(visible_of(s)[j] == s[i]);
            }
        }
    }
}

/// A prepared partition is determined by what it holds: two sorted,
/// correctly classified partition pairs of the same entries are equal. With
/// the filesystem state unchanged, repeated listings therefore render the
/// files and the directories in the same order every time.
pub proof fn lemma_partition_determined(
    f1: Seq<Entry>,
    d1: Seq<Entry>,
    f2: Seq<Entry>,
    d2: Seq<Entry>,
)
    requires
        entries_sorted(f1),
        entries_sorted(d1),
        entries_sorted(f2),
        entries_sorted(d2),
        forall|i: int| 0 <= i < f1.len() ==> !f1[i].is_dir,
        forall|i: int| 0 <= i < d1.len() ==> d1[i].is_dir,
        forall|i: int| 0 <= i < f2.len() ==> !f2[i].is_dir,
        forall|i: int| 0 <= i < d2.len() ==> d2[i].is_dir,
        f1.to_multiset().add(d1.to_multiset()) == f2.to_multiset().add(d2.to_multiset()),
        distinct_paths(f1),
        distinct_paths(d1),
    ensures
        f1 == f2,
        d1 == d2,
{
    broadcast use vstd::seq_lib::group_to_multiset_ensures;
    broadcast use vstd::multiset::group_multiset_axioms;

    assert forall|x: Entry| f1.to_multiset().count(x) == f2.to_multiset().count(x) by {
        if x.is_dir {
            assert(f1.to_multiset().count(x) == 0) by {
                if f1.to_multiset().count(x) > 0 {
                    assert(f1.contains(x));
                    let i = choose|i: int| 0 <= i < f1.len() && f1[i] == x;
                    assert(!f1[i].is_dir);
                }
            }
            assert(f2.to_multiset().count(x) == 0) by {
                if f2.to_multiset().count(x) > 0 {
                    assert(f2.contains(x));
                    let i = choose|i: int| 0 <= i < f2.len() && f2[i] == x;
                    assert(!f2[i].is_dir);
                }
            }
        } else {
            assert(d1.to_multiset().count(x) == 0) by {
                if d1.to_multiset().count(x) > 0 {
                    assert(d1.contains(x));
                    let i = choose|i: int| 0 <= i < d1.len() && d1[i] == x;
                    assert(d1[i].is_dir);
                }
            }
            assert(d2.to_multiset().count(x) == 0) by {
                if d2.to_multiset().count(x) > 0 {
                    assert(d2.contains(x));
                    let i = choose|i: int| 0 <= i < d2.len() && d2[i] == x;
                    assert(d2[i].is_dir);
                }
            }
            assert(f1.to_multiset().add(d1.to_multiset()).count(x) == f1.to_multiset().count(x)
                + d1.to_multiset().count(x));
            assert(f2.to_multiset().add(d2.to_multiset()).count(x) == f2.to_multiset().count(x)
                + d2.to_multiset().count(x));
        }
    }
    assert(f1.to_multiset() =~= f2.to_multiset());
    crate::order::lemma_sorted_unique(f1, f2);
    assert forall|x: Entry| d1.to_multiset().count(x) == d2.to_multiset().count(x) by {
        assert(f1.to_multiset().add(d1.to_multiset()).count(x) == f1.to_multiset().count(x)
            + d1.to_multiset().count(x));
        assert(f2.to_multiset().add(d2.to_multiset()).count(x) == f2.to_multiset().count(x)
            + d2.to_multiset().count(x));
        assert(f1.to_multiset().count(x) == f2.to_multiset().count(x));
    }
    assert(d1.to_multiset() =~= d2.to_multiset());
    crate::order::lemma_sorted_unique(d1, d2);
}

/// What the readability filter keeps: exactly the entries with fetched
/// metadata, and nothing else.
pub proof fn lemma_readable_membership(s: Seq<Entry>)
    ensures
        forall|i: int|
            0 <= i < readable_of(s).len() ==> readable_of(s)[i].metadata is Some && s.contains(
                readable_of(s)[i],
            ),
        forall|i: int|
            0 <= i < s.len() && s[i].metadata is Some ==> #[trigger] readable_of(s).contains(
                s[i],
            ),
    decreases s.len(),
{
    if s.len() > 0 {
        let d = s.drop_last();
        lemma_readable_membership(d);
        assert forall|i: int|
            0 <= i < readable_of(s).len() implies readable_of(s)[i].metadata is Some
            && s.contains(readable_of(s)[i]) by {
            if s.last().metadata is Some && i == readable_of(s).len() - 1 {
                assert(readable_of(s)[i] == s.last());
                assert(s[s.len() - 1] == s.last());
            } else {
                assert(readable_of(s)[i] == readable_of(d)[i]);
                assert(d.contains(readable_of(d)[i]));
                let j = choose|j: int| 0 <= j < d.len() && d[j] == readable_of(d)[i];
                assert(s[j] == readable_of(s)[i]);
            }
        }
        assert forall|i: int|
            0 <= i < s.len() && s[i].metadata is Some implies #[trigger] readable_of(s).contains(
            s[i],
        ) by {
            if i == s.len() - 1 {
                assert(readable_of(s)[readable_of(s).len() - 1] == s[i]);
            } else {
                assert(d[i] == s[i]);
                assert(readable_of(d).contains(d[i]));
                let j = choose|j: int|
                    0 <= j < readable_of(d).len() && readable_of(d)[j] == d[i];
                assert(readable_of(s)[j] == s[i]);
            }
        }
    }
}

/// Drop the entries whose metadata could not be fetched, keeping the others
/// in order.
pub fn filter_readable(entries: Vec<Entry>) -> (r: Vec<Entry>)
    ensures
        r@ == readable_of(entries@),
{
    let ghost all = entries@;
    let mut rest = entries;
    let mut out: Vec<Entry> = Vec::new();
    let ghost mut i: int = 0;
    proof {
        assert(all.take(0) =~= Seq::<Entry>::empty());
        assert(all.skip(0) =~= all);
    }
    while rest.len() > 0
        invariant
            0 <= i,
            i + rest@.len() == all.len(),
            rest@ == all.skip(i),
            out@ == readable_of(all.take(i)),
        decreases rest@.len(),
    {
        let e = rest.remove(0);
        proof {
            assert(e == all[i]);
            assert(all.skip(i).remove(0) =~= all.skip(i + 1));
            assert(all.take(i + 1).drop_last() =~= all.take(i));
            assert(all.take(i + 1).last() == all[i]);
        }
        if e.metadata.is_some() {
            out.push(e);
        }
        proof { i = i + 1; }
    }
    proof {
        assert(all.take(i) =~= all);
    }
    out
}

/// Drop the hidden entries, keeping the others in order.
pub fn filter_visible(entries: Vec<Entry>) -> (r: Vec<Entry>)
    ensures
        r@ == visible_of(entries@),
{
    let ghost all = entries@;
    let mut rest = entries;
    let mut out: Vec<Entry> = Vec::new();
    let ghost mut i: int = 0;
    proof {
        assert(all.take(0) =~= Seq::<Entry>::empty());
        assert(all.skip(0) =~= all);
    }
    while rest.len() > 0
        invariant
            0 <= i,
            i + rest@.len() == all.len(),
            rest@ == all.skip(i),
            out@ == visible_of(all.take(i)),
        decreases rest@.len(),
    {
        let e = rest.remove(0);
        proof {
            assert(e == all[i]);
            assert(all.skip(i).remove(0) =~= all.skip(i + 1));
            assert(all.take(i + 1).drop_last() =~= all.take(i));
            assert(all.take(i + 1).last() == all[i]);
        }
        if !is_dotfile(&e) {
            out.push(e);
        }
        proof { i = i + 1; }
    }
    proof {
        assert(all.take(i) =~= all);
    }
    out
}

/// Split entries into non-directories and directories, keeping order.
pub fn partition_entries(entries: Vec<Entry>) -> (r: (Vec<Entry>, Vec<Entry>))
    ensures
        r.0@ == files_of(entries@),
        r.1@ == dirs_of(entries@),
{
    let ghost all = entries@;
    let mut rest = entries;
    let mut files: Vec<Entry> = Vec::new();
    let mut dirs: Vec<Entry> = Vec::new();
    let ghost mut i: int = 0;
    proof {
        assert(all.take(0) =~= Seq::<Entry>::empty());
        assert(all.skip(0) =~= all);
    }
    while rest.len() > 0
        invariant
            0 <= i,
            i + rest@.len() == all.len(),
            rest@ == all.skip(i),
            files@ == files_of(all.take(i)),
            dirs@ == dirs_of(all.take(i)),
        decreases rest@.len(),
    {
        let e = rest.remove(0);
        proof {
            assert(e == all[i]);
            assert(all.skip(i).remove(0) =~= all.skip(i + 1));
            assert(all.take(i + 1).drop_last() =~= all.take(i));
            assert(all.take(i + 1).last() == all[i]);
        }
        if e.is_dir {
            dirs.push(e);
        } else {
            files.push(e);
        }
        proof { i = i + 1; }
    }
    proof {
        assert(all.take(i) =~= all);
    }
    (files, dirs)
}

/// Total the block counts of the given entries, saturating at the largest
/// representable value.
pub fn total_block_count(entries: &Vec<Entry>) -> (r: u64)
    ensures
        r as int == (if sum_blocks(entries@) <= u64::MAX as int {
            sum_blocks(entries@)
        } else {
            u64::MAX as int
        }),
{
    let mut acc: u64 = 0;
    let mut i: usize = 0;
    proof {
        assert(entries@.take(0) =~= Seq::<Entry>::empty());
    }
    while i < entries.len()
        invariant
            i <= entries@.len(),
            acc as int == (if sum_blocks(entries@.take(i as int)) <= u64::MAX as int {
                sum_blocks(entries@.take(i as int))
            } else {
                u64::MAX as int
            }),
        decreases entries@.len() - i,
    {
        let b = get_block_size(&entries[i]);
        proof {
            assert(entries@.take(i as int + 1).drop_last() =~= entries@.take(i as int));
            assert(entries@.take(i as int + 1).last() == entries@[i as int]);
            lemma_sum_blocks_nonneg(entries@.take(i as int));
        }
        acc = acc.saturating_add(b);
        i = i + 1;
    }
    proof {
        assert(entries@.take(i as int) =~= entries@);
    }
    acc
}

/// Prepare collected entries for rendering: exclude entries whose metadata
/// could not be fetched, hide dotfiles, sort the rest by path bytes, and
/// partition them into files and directories. The two partitions are each
/// sorted, correctly classified, hold only entries with fetched metadata,
/// and together hold exactly the visible readable entries.
pub fn prepare_entries(entries: Vec<Entry>) -> (r: (Vec<Entry>, Vec<Entry>))
    ensures
        entries_sorted(r.0@),
        entries_sorted(r.1@),
        forall|i: int| 0 <= i < r.0@.len() ==> !r.0@[i].is_dir && r.0@[i].metadata is Some,
        forall|i: int| 0 <= i < r.1@.len() ==> r.1@[i].is_dir && r.1@[i].metadata is Some,
        r.0@.to_multiset().add(r.1@.to_multiset()) == visible_of(
            readable_of(entries@),
        ).to_multiset(),
        r.0@.len() + r.1@.len() == visible_of(readable_of(entries@)).len(),
{
    broadcast use vstd::seq_lib::group_to_multiset_ensures;

    let ghost orig = entries@;
    let readable = filter_readable(entries);
    let ghost readable_view = readable@;
    let kept = filter_visible(readable);
    let ghost kept_view = kept@;
    let sorted = sort_entries(kept);
    let ghost sorted_view = sorted@;
    let (files, dirs) = partition_entries(sorted);
    proof {
        lemma_partition_membership(sorted_view);
        lemma_partition_sorted(sorted_view);
        lemma_partition_conserves(sorted_view);
        lemma_visible_membership(readable_view);
        lemma_readable_membership(orig);
        assert forall|i: int|
            0 <= i < files@.len() implies !files@[i].is_dir && files@[i].metadata is Some by {
            let x = files@[i];
            assert(sorted_view.contains(x));
            assert(sorted_view.to_multiset().count(x) > 0);
            assert(kept_view.to_multiset().count(x) > 0);
            assert(kept_view.contains(x));
            let j = choose|j: int| 0 <= j < kept_view.len() && kept_view[j] == x;
            assert(readable_view.contains(visible_of(readable_view)[j]));
            let k = choose|k: int| 0 <= k < readable_view.len() && readable_view[k] == x;
            assert(readable_of(orig)[k].metadata is Some);
        }
        assert forall|i: int|
            0 <= i < dirs@.len() implies dirs@[i].is_dir && dirs@[i].metadata is Some by {
            let x = dirs@[i];
            assert(sorted_view.contains(x));
            assert(sorted_view.to_multiset().count(x) > 0);
            assert(kept_view.to_multiset().count(x) > 0);
            assert(kept_view.contains(x));
            let j = choose|j: int| 0 <= j < kept_view.len() && kept_view[j] == x;
            assert(readable_view.contains(visible_of(readable_view)[j]));
            let k = choose|k: int| 0 <= k < readable_view.len() && readable_view[k] == x;
            assert(readable_of(orig)[k].metadata is Some);
        }
    }
    (files, dirs)
}

} // verus!
