//! Ordering of the files that cutting a video produced: only regular files
//! are kept, earliest modification first, files modified at the same time in
//! the order the directory listed them.

use vstd::prelude::*;

verus! {

/// One entry of the segment directory, as the directory listing gives it.
pub struct SegmentEntry {
    /// Path of the entry.
    pub path: String,
    /// Whether the entry is a regular file.
    pub is_file: bool,
    /// Modification time, in nanoseconds from the Unix epoch (negative
    /// before it).
    pub modified: i128,
}

/// Entry `a` of the listing goes before entry `b`: it was modified earlier,
/// or at the same time and listed earlier.
pub open spec fn goes_before(entries: Seq<SegmentEntry>, a: int, b: int) -> bool {
    ||| entries[a].modified < entries[b].modified
    ||| entries[a].modified == entries[b].modified && a < b
}

/// `order` lists, by their positions in `entries`, exactly the regular
/// files, each once, sorted by modification time, ties in listing order.
pub open spec fn is_segment_order(entries: Seq<SegmentEntry>, order: Seq<usize>) -> bool {
    &&& forall|k: int|
        0 <= k < order.len() ==> #[trigger] order[k] < entries.len() && entries[order[k] as int].is_file
    &&& forall|i: int|
        0 <= i < entries.len() && #[trigger] entries[i].is_file ==> order.contains(i as usize)
    &&& forall|a: int, b: int|
        0 <= a < b < order.len() ==> goes_before(entries, #[trigger] order[a] as int, #[trigger] order[b] as int)
}

/// The positions of the regular files of `entries`, sorted by modification
/// time, files modified at the same time in listing order (a stable sort).
pub fn segment_order(entries: &Vec<SegmentEntry>) -> (order: Vec<usize>)
    ensures
        is_segment_order(entries@, order@),
{
    let n = entries.len();
    let mut order: Vec<usize> = Vec::new();
    let mut i: usize = 0;
    while i < n
        invariant
            n == entries.len(),
            i <= n,
            forall|k: int|
                0 <= k < order.len() ==> #[trigger] order[k] < i && entries@[order[k] as int].is_file,
            forall|j: int| 0 <= j < i && #[trigger] entries@[j].is_file ==> order@.contains(j as usize),
            forall|a: int, b: int|
                0 <= a < b < order.len() ==> goes_before(entries@, #[trigger] order[a] as int, #[trigger] order[b] as int),
        decreases n - i,
    {
        if entries[i].is_file {
            let m = entries[i].modified;
            let mut p: usize = 0;
            while p < order.len() && entries[order[p]].modified <= m
                invariant
                    n == entries.len(),
                    i < n,
                    p <= order.len(),
                    forall|k: int| 0 <= k < order.len() ==> #[trigger] order[k] < i,
                    forall|a: int| 0 <= a < p ==> entries@[#[trigger] order[a] as int].modified <= m,
                decreases order.len() - p,
            {
                p += 1;
            }
            let ghost old_order = order@;
            proof {
                assert forall|x: int| p <= x < old_order.len() implies entries@[#[trigger] old_order[x] as int].modified > m by {
                    if x > p {
                        assert(goes_before(entries@, old_order[p as int] as int, old_order[x] as int));
                    }
                }
            }
            order.insert(p, i);
            proof {
                let o = order@;
                assert forall|k: int| 0 <= k < o.len() implies #[trigger] o[k] < i + 1 && entries@[o[k] as int].is_file by {
                    if k < p {
                        assert(o[k] == old_order[k]);
                    } else if k > p {
                        assert(o[k] == old_order[k - 1]);
                    }
                }
                assert forall|j: int| 0 <= j < i + 1 && #[trigger] entries@[j].is_file implies o.contains(j as usize) by {
                    if j == i {
                        assert(o[p as int] == i);
                    } else {
                        assert(old_order.contains(j as usize));
                        let w = choose|w: int| 0 <= w < old_order.len() && old_order[w] == j as usize;
                        if w < p {
                            assert(o[w] == j as usize);
                        } else {
                            assert(o[w + 1] == j as usize);
                        }
                    }
                }
                assert forall|a: int, b: int| 0 <= a < b < o.len() implies goes_before(entries@, #[trigger] o[a] as int, #[trigger] o[b] as int) by {
                    if b < p {
                        assert(o[a] == old_order[a] && o[b] == old_order[b]);
                    } else if b == p {
                        assert(o[a] == old_order[a]);
                        assert(entries@[old_order[a] as int].modified <= m);
                    } else if a < p {
                        assert(o[a] == old_order[a] && o[b] == old_order[b - 1]);
                    } else if a == p {
                        assert(o[b] == old_order[b - 1]);
                        assert(entries@[old_order[b - 1] as int].modified > m);
                    } else {
                        assert(o[a] == old_order[a - 1] && o[b] == old_order[b - 1]);
                    }
                }
            }
        }
        i += 1;
    }
    order
}

/// The paths of the regular files of `entries`, sorted by modification
/// time, files modified at the same time in listing order.
pub fn order_segments(entries: &Vec<SegmentEntry>) -> (paths: Vec<String>)
    ensures
        exists|order: Seq<usize>|
            {
                &&& is_segment_order(entries@, order)
                &&& paths@.len() == order.len()
                &&& forall|k: int|
                    0 <= k < order.len() ==> #[trigger] paths@[k]@ == entries@[order[k] as int].path@
            },
{
    let order = segment_order(entries);
    let mut paths: Vec<String> = Vec::new();
    let mut k: usize = 0;
    while k < order.len()
        invariant
            is_segment_order(entries@, order@),
            k <= order.len(),
            paths@.len() == k,
            forall|q: int| 0 <= q < k ==> #[trigger] paths@[q]@ == entries@[order@[q] as int].path@,
        decreases order.len() - k,
    {
        let idx = order[k];
        assert(order@[k as int] < entries.len());
        paths.push(entries[idx].path.clone());
        k += 1;
    }
    paths
}

/// Two segment orders of one listing agree at `k` when they agree before it.
proof fn lemma_orders_agree_at(
    entries: Seq<SegmentEntry>,
    o1: Seq<usize>,
    o2: Seq<usize>,
    k: int,
)
    requires
        is_segment_order(entries, o1),
        is_segment_order(entries, o2),
        0 <= k < o1.len(),
        k < o2.len(),
        forall|j: int| 0 <= j < k ==> o1[j] == o2[j],
    ensures
        o1[k] == o2[k],
{
    let x = o1[k];
    let y = o2[k];
    if x != y {
        assert(o1[k] < entries.len() && entries[x as int].is_file);
        assert(o2[k] < entries.len() && entries[y as int].is_file);
        assert(o2.contains(x));
        assert(o1.contains(y));
        let jx = choose|j: int| 0 <= j < o2.len() && o2[j] == x;
        let jy = choose|j: int| 0 <= j < o1.len() && o1[j] == y;
        if jx < k {
            assert(o1[jx] == x);
            assert(goes_before(entries, o1[jx] as int, o1[k] as int));
        } else if jy < k {
            assert(o2[jy] == y);
            assert(goes_before(entries, o2[jy] as int, o2[k] as int));
        } else {
            assert(jx > k && jy > k);
            assert(goes_before(entries, o2[k] as int, o2[jx] as int));
            assert(goes_before(entries, o1[k] as int, o1[jy] as int));
        }
    }
}

proof fn lemma_orders_agree_upto(
    entries: Seq<SegmentEntry>,
    o1: Seq<usize>,
    o2: Seq<usize>,
    n: int,
)
    requires
        is_segment_order(entries, o1),
        is_segment_order(entries, o2),
        0 <= n <= o1.len(),
        n <= o2.len(),
    ensures
        forall|j: int| 0 <= j < n ==> o1[j] == o2[j],
    decreases n,
{
    if n > 0 {
        lemma_orders_agree_upto(entries, o1, o2, n - 1);
        lemma_orders_agree_at(entries, o1, o2, n - 1);
    }
}

proof fn lemma_order_not_longer(entries: Seq<SegmentEntry>, o1: Seq<usize>, o2: Seq<usize>)
    requires
        is_segment_order(entries, o1),
        is_segment_order(entries, o2),
    ensures
        o1.len() <= o2.len(),
{
    if o1.len() > o2.len() {
        let k = o2.len() as int;
        lemma_orders_agree_upto(entries, o1, o2, k);
        let x = o1[k];
        assert(o1[k] < entries.len() && entries[x as int].is_file);
        assert(o2.contains(x));
        let j = choose|j: int| 0 <= j < o2.len() && o2[j] == x;
        assert(o1[j] == x);
        assert(goes_before(entries, o1[j] as int, o1[k] as int));
    }
}

/// A listing has one segment order only: the order of the segments is fully
/// determined by the listing.
pub proof fn lemma_segment_order_unique(entries: Seq<SegmentEntry>, o1: Seq<usize>, o2: Seq<usize>)
    requires
        is_segment_order(entries, o1),
        is_segment_order(entries, o2),
    ensures
        o1 == o2,
{
    lemma_order_not_longer(entries, o1, o2);
    lemma_order_not_longer(entries, o2, o1);
    lemma_orders_agree_upto(entries, o1, o2, o1.len() as int);
    assert(o1 =~= o2);
}

} // verus!
