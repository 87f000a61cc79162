//! A snapshot of the UEFI memory map, and its per-type summary.
use vstd::prelude::*;

verus! {

#[derive(Debug, Clone)]
pub struct MemRegion {
    pub ty: String,
    pub phys_start: u64,
    pub page_count: u64,
}

impl MemRegion {
    /// The region's size in bytes (4 KiB pages).
    pub fn size_bytes(&self) -> (r: u64)
        requires
            self.page_count * 4096 <= u64::MAX,
        ensures
            r == self.page_count * 4096,
    {
        self.page_count * 4096
    }
}

/// The memory types in `regions`, each once, in order of first appearance.
pub open spec fn types_in_order(regions: Seq<MemRegion>) -> Seq<Seq<char>>
    decreases regions.len(),
{
    if regions.len() == 0 {
        Seq::empty()
    } else {
        let before = types_in_order(regions.drop_last());
        let t = regions.last().ty@;
        if before.contains(t) {
            before
        } else {
            before.push(t)
        }
    }
}

/// The pages of all regions of type `t`.
pub open spec fn pages_of_type(regions: Seq<MemRegion>, t: Seq<char>) -> nat
    decreases regions.len(),
{
    if regions.len() == 0 {
        0
    } else {
        pages_of_type(regions.drop_last(), t) + if regions.last().ty@ == t {
            regions.last().page_count as nat
        } else {
            0nat
        }
    }
}

/// How many regions have type `t`.
pub open spec fn regions_of_type(regions: Seq<MemRegion>, t: Seq<char>) -> nat
    decreases regions.len(),
{
    if regions.len() == 0 {
        0
    } else {
        regions_of_type(regions.drop_last(), t) + if regions.last().ty@ == t {
            1nat
        } else {
            0nat
        }
    }
}

/// The pages of all regions.
pub open spec fn total_pages(regions: Seq<MemRegion>) -> nat
    decreases regions.len(),
{
    if regions.len() == 0 {
        0
    } else {
        total_pages(regions.drop_last()) + regions.last().page_count as nat
    }
}

/// One row per memory type, in order of first appearance: the type, its
/// total pages, and its region count.
pub open spec fn grouped(regions: Seq<MemRegion>) -> Seq<(Seq<char>, nat, nat)> {
    types_in_order(regions).map_values(
        |t: Seq<char>| (t, pages_of_type(regions, t), regions_of_type(regions, t)),
    )
}

/// `order` lists the indices of `rows` so that pages never increase, with
/// rows of equal pages kept in the order of `rows` (a stable sort by pages,
/// largest first).
pub open spec fn is_stable_descending(rows: Seq<(Seq<char>, nat, nat)>, order: Seq<int>) -> bool {
    &&& order.len() == rows.len()
    &&& forall|i: int| 0 <= i < order.len() ==> 0 <= #[trigger] order[i] < rows.len()
    &&& forall|i: int, j: int|
        #![trigger order[i], order[j]]
        0 <= i < j < order.len() ==> rows[order[i]].1 > rows[order[j]].1 || (rows[order[i]].1
            == rows[order[j]].1 && order[i] < order[j])
}

/// A summary row as plain values.
pub open spec fn row_view(row: (String, u64, u64)) -> (Seq<char>, nat, nat) {
    (row.0@, row.1 as nat, row.2 as nat)
}

/// The grouping lists each memory type of the snapshot exactly once: no
/// type twice, and a type is listed exactly when some region has it. No
/// type has more pages than all regions together, nor more regions than
/// the snapshot.
pub proof fn lemma_types_facts(regions: Seq<MemRegion>)
    ensures
        types_in_order(regions).no_duplicates(),
        forall|t: Seq<char>|
            #![trigger types_in_order(regions).contains(t)]
            types_in_order(regions).contains(t) <==> regions_of_type(regions, t) > 0,
        forall|t: Seq<char>|
            #![trigger pages_of_type(regions, t)]
            pages_of_type(regions, t) <= total_pages(regions),
        forall|t: Seq<char>|
            #![trigger regions_of_type(regions, t)]
            regions_of_type(regions, t) <= regions.len(),
    decreases regions.len(),
{
    if regions.len() > 0 {
        let prev = regions.drop_last();
        lemma_types_facts(prev);
        let t = regions.last().ty@;
        let before = types_in_order(prev);
        if !before.contains(t) {
            assert forall|i: int, j: int|
                0 <= i < j < before.push(t).len() implies before.push(t)[i] != before.push(t)[j] by {
                if j == before.len() {
                    assert(before.contains(before[i]));
                }
            }
        }
        assert forall|u: Seq<char>|
            #![trigger types_in_order(regions).contains(u)]
            types_in_order(regions).contains(u) <==> regions_of_type(regions, u) > 0 by {
            assert(before.contains(u) <==> regions_of_type(prev, u) > 0);
            if !before.contains(t) {
                let pushed = before.push(t);
                if pushed.contains(u) {
                    let k = choose|k: int| 0 <= k < pushed.len() && pushed[k] == u;
                    if k < before.len() {
                        assert(before[k] == u);
                        assert(before.contains(u));
                    }
                }
                if u == t {
                    assert(pushed[before.len() as int] == t);
                }
                if before.contains(u) {
                    let k = choose|k: int| 0 <= k < before.len() && before[k] == u;
                    assert(pushed[k] == u);
                }
            }
        }
        assert forall|u: Seq<char>| #![trigger pages_of_type(regions, u)] pages_of_type(regions, u) <= total_pages(regions) by {
            assert(pages_of_type(prev, u) <= total_pages(prev));
        }
        assert forall|u: Seq<char>| #![trigger regions_of_type(regions, u)] regions_of_type(regions, u) <= regions.len() by {
            assert(regions_of_type(prev, u) <= prev.len());
        }
    }
}

/// The grouping after one more region.
proof fn lemma_grouped_push(regions: Seq<MemRegion>, r: MemRegion)
    ensures
        regions.push(r).drop_last() == regions,
        regions.push(r).last() == r,
{
    assert(regions.push(r).drop_last() =~= regions);
}

/// Groups a snapshot by memory type, summing page counts -- much more
/// useful to look at than several hundred raw descriptors. Rows are
/// ordered by total pages, largest first; types with equal totals keep the
/// order in which they first appear.
pub fn summarize(regions: &[MemRegion]) -> (r: Vec<(String, u64, u64)>)
    requires
        forall|t: Seq<char>| #[trigger] pages_of_type(regions@, t) <= u64::MAX,
    ensures
        exists|order: Seq<int>|
            #![trigger is_stable_descending(grouped(regions@), order)]
            is_stable_descending(grouped(regions@), order) && r@.len() == order.len() && forall|i: int|
                0 <= i < r@.len() ==> row_view(#[trigger] r@[i]) == grouped(regions@)[order[i]],
        forall|i: int, j: int| 0 <= i < j < r@.len() ==> (#[trigger] r@[i]).0@ != (#[trigger] r@[j]).0@,
        forall|i: int|
            0 <= i < r@.len() ==> regions_of_type(regions@, (#[trigger] r@[i]).0@) > 0 && (r@[i].1 as nat)
                == pages_of_type(regions@, r@[i].0@) && (r@[i].2 as nat) == regions_of_type(regions@, r@[i].0@),
{
    proof {
        lemma_types_facts(regions@);
    }
    let totals = group_by_type(regions);
    let ghost rows = grouped(regions@);
    let r = sort_by_pages_descending(totals, Ghost(rows));
    proof {
        let order = choose|order: Seq<int>|
            #![trigger is_stable_descending(rows, order)]
            is_stable_descending(rows, order) && r@.len() == order.len() && forall|i: int|
                0 <= i < r@.len() ==> row_view(#[trigger] r@[i]) == rows[order[i]];
        let types = types_in_order(regions@);
        assert forall|i: int| 0 <= i < r@.len() implies regions_of_type(regions@, (#[trigger] r@[i]).0@) > 0 && (
        r@[i].1 as nat) == pages_of_type(regions@, r@[i].0@) && (r@[i].2 as nat) == regions_of_type(
            regions@,
            r@[i].0@,
        ) by {
            assert(row_view(r@[i]) == rows[order[i]]);
            assert(types.contains(types[order[i]]));
        }
        assert forall|i: int, j: int| 0 <= i < j < r@.len() implies (#[trigger] r@[i]).0@ != (#[trigger] r@[j]).0@ by {
            assert(row_view(r@[i]) == rows[order[i]]);
            assert(row_view(r@[j]) == rows[order[j]]);
            assert(order[i] != order[j]);
        }
    }
    r
}

/// One row per memory type, in order of first appearance.
fn group_by_type(regions: &[MemRegion]) -> (totals: Vec<(String, u64, u64)>)
    requires
        forall|t: Seq<char>| #[trigger] pages_of_type(regions@, t) <= u64::MAX,
    ensures
        totals@.len() == grouped(regions@).len(),
        forall|j: int| 0 <= j < totals@.len() ==> row_view(#[trigger] totals@[j]) == grouped(regions@)[j],
{
    let mut totals: Vec<(String, u64, u64)> = Vec::new();
    let mut i = 0usize;
    while i < regions.len()
        invariant
            i <= regions@.len(),
            forall|t: Seq<char>| #[trigger] pages_of_type(regions@, t) <= u64::MAX,
            totals@.len() == types_in_order(regions@.take(i as int)).len(),
            forall|j: int|
                0 <= j < totals@.len() ==> row_view(#[trigger] totals@[j]) == grouped(
                    regions@.take(i as int),
                )[j],
        decreases regions@.len() - i,
    {
        let ghost prefix = regions@.take(i as int);
        let ghost next = regions@.take(i + 1);
        let region = &regions[i];
        proof {
            assert(next =~= prefix.push(*region));
            lemma_grouped_push(prefix, *region);
            lemma_types_facts(next);
            lemma_types_facts(prefix);
            lemma_type_pages_prefix(regions@, i as int + 1, region.ty@);
        }
        let mut k = 0usize;
        let mut found = false;
        while k < totals.len() && !found
            invariant
                k <= totals@.len(),
                found ==> k < totals@.len() && totals@[k as int].0@ == region.ty@,
                !found ==> forall|j: int| 0 <= j < k ==> (#[trigger] totals@[j]).0@ != region.ty@,
            decreases totals@.len() - k + if found { 0int } else { 1int },
        {
            if totals[k].0 == region.ty {
                found = true;
            } else {
                k += 1;
            }
        }
        let ghost t = region.ty@;
        let ghost types = types_in_order(prefix);
        if found {
            proof {
                assert(types[k as int] == t);
                assert(types.contains(t));
                assert(types_in_order(next) == types);
                assert(pages_of_type(prefix, t) + region.page_count == pages_of_type(next, t));
                assert(pages_of_type(regions@, t) <= u64::MAX);
                assert(regions_of_type(prefix, t) <= prefix.len());
            }
            let updated = (
                totals[k].0.clone(),
                totals[k].1 + region.page_count,
                totals[k].2 + 1,
            );
            totals.set(k, updated);
        } else {
            proof {
                assert(!types.contains(t)) by {
                    if types.contains(t) {
                        let j = choose|j: int| 0 <= j < types.len() && types[j] == t;
                        assert(row_view(totals@[j]).0 == t);
                    }
                }
                assert(types_in_order(next) == types.push(t));
                assert(regions_of_type(prefix, t) == 0);
                lemma_zero_pages(prefix, t);
            }
            totals.push((region.ty.clone(), region.page_count, 1));
        }
        proof {
            assert forall|j: int| 0 <= j < totals@.len() implies row_view(#[trigger] totals@[j]) == grouped(next)[j] by {
                let u = types_in_order(next)[j];
                if u != t {
                    assert(pages_of_type(next, u) == pages_of_type(prefix, u));
                    assert(regions_of_type(next, u) == regions_of_type(prefix, u));
                }
            }
        }
        i += 1;
    }
    proof {
        assert(regions@.take(regions@.len() as int) =~= regions@);
    }
    totals
}

/// A type with no regions has no pages.
proof fn lemma_zero_pages(regions: Seq<MemRegion>, t: Seq<char>)
    requires
        regions_of_type(regions, t) == 0,
    ensures
        pages_of_type(regions, t) == 0,
    decreases regions.len(),
{
    if regions.len() > 0 {
        lemma_zero_pages(regions.drop_last(), t);
    }
}

/// A prefix has no more pages of a type than the whole.
proof fn lemma_type_pages_prefix(regions: Seq<MemRegion>, n: int, t: Seq<char>)
    requires
        0 <= n <= regions.len(),
    ensures
        pages_of_type(regions.take(n), t) <= pages_of_type(regions, t),
    decreases regions.len() - n,
{
    if n < regions.len() {
        lemma_type_pages_prefix(regions, n + 1, t);
        assert(regions.take(n + 1).drop_last() =~= regions.take(n));
    } else {
        assert(regions.take(n) =~= regions);
    }
}

/// Stable insertion sort of `rows` by pages, largest first.
fn sort_by_pages_descending(
    rows: Vec<(String, u64, u64)>,
    Ghost(spec_rows): Ghost<Seq<(Seq<char>, nat, nat)>>,
) -> (r: Vec<(String, u64, u64)>)
    requires
        rows@.len() == spec_rows.len(),
        forall|j: int| 0 <= j < rows@.len() ==> row_view(#[trigger] rows@[j]) == spec_rows[j],
    ensures
        exists|order: Seq<int>|
            #![trigger is_stable_descending(spec_rows, order)]
            is_stable_descending(spec_rows, order) && r@.len() == order.len() && forall|i: int|
                0 <= i < r@.len() ==> row_view(#[trigger] r@[i]) == spec_rows[order[i]],
{
    let mut sorted: Vec<(String, u64, u64)> = Vec::new();
    let ghost mut order: Seq<int> = Seq::empty();
    let mut m = 0usize;
    while m < rows.len()
        invariant
            m <= rows@.len(),
            rows@.len() == spec_rows.len(),
            forall|j: int| 0 <= j < rows@.len() ==> row_view(#[trigger] rows@[j]) == spec_rows[j],
            sorted@.len() == m,
            order.len() == m,
            forall|i: int| 0 <= i < order.len() ==> 0 <= #[trigger] order[i] < m,
            forall|i: int, j: int| 0 <= i < j < order.len() ==> #[trigger] order[i] != #[trigger] order[j],
            forall|i: int, j: int|
                #![trigger order[i], order[j]]
                0 <= i < j < order.len() ==> spec_rows[order[i]].1 > spec_rows[order[j]].1 || (
                spec_rows[order[i]].1 == spec_rows[order[j]].1 && order[i] < order[j]),
            forall|i: int| 0 <= i < sorted@.len() ==> row_view(#[trigger] sorted@[i]) == spec_rows[order[i]],
        decreases rows@.len() - m,
    {
        let pages = rows[m].1;
        let mut p = 0usize;
        while p < sorted.len() && sorted[p].1 >= pages
            invariant
                p <= sorted@.len(),
                forall|i: int| 0 <= i < p ==> (#[trigger] sorted@[i]).1 >= pages,
            decreases sorted@.len() - p,
        {
            p += 1;
        }
        let ghost old_order = order;
        let ghost old_sorted = sorted@;
        let row = (rows[m].0.clone(), rows[m].1, rows[m].2);
        sorted.insert(p, row);
        proof {
            order = old_order.insert(p as int, m as int);
            assert forall|i: int, j: int|
                #![trigger order[i], order[j]]
                0 <= i < j < order.len() implies spec_rows[order[i]].1 > spec_rows[order[j]].1 || (
                spec_rows[order[i]].1 == spec_rows[order[j]].1 && order[i] < order[j]) by {
                if i < p && j == p {
                    assert(old_sorted[i].1 >= pages);
                    assert(row_view(old_sorted[i]) == spec_rows[old_order[i]]);
                } else if i == p && j > p {
                    assert(!(old_sorted[p as int].1 >= pages));
                    assert(old_sorted[p as int].1 >= old_sorted[j - 1].1 || true);
                    assert(row_view(old_sorted[j - 1]) == spec_rows[old_order[j - 1]]);
                    lemma_sorted_pages_after(old_sorted, old_order, spec_rows, p as int, j - 1);
                } else if i < p && j > p {
                    assert(order[i] == old_order[i]);
                    assert(order[j] == old_order[j - 1]);
                } else if j < p {
                } else {
                    assert(order[i] == old_order[i - 1]);
                    assert(order[j] == old_order[j - 1]);
                }
            }
            assert forall|i: int| 0 <= i < sorted@.len() implies row_view(#[trigger] sorted@[i]) == spec_rows[order[i]] by {
                if i < p {
                } else if i == p {
                    assert(row_view(rows@[m as int]) == spec_rows[m as int]);
                } else {
                    assert(sorted@[i] == old_sorted[i - 1]);
                }
            }
            assert forall|i: int, j: int| 0 <= i < j < order.len() implies #[trigger] order[i] != #[trigger] order[j] by {
                if i < p && j == p {
                } else if i == p && j > p {
                } else if i < p && j > p {
                    assert(order[j] == old_order[j - 1]);
                } else if j < p {
                } else {
                    assert(order[i] == old_order[i - 1]);
                    assert(order[j] == old_order[j - 1]);
                }
            }
        }
        m += 1;
    }
    proof {
        assert(is_stable_descending(spec_rows, order));
    }
    sorted
}

/// In a list sorted by pages, every row from `p` on has no more pages than
/// the row at `p`.
proof fn lemma_sorted_pages_after(
    sorted: Seq<(String, u64, u64)>,
    order: Seq<int>,
    spec_rows: Seq<(Seq<char>, nat, nat)>,
    p: int,
    q: int,
)
    requires
        0 <= p <= q < sorted.len(),
        order.len() == sorted.len(),
        forall|i: int, j: int|
            #![trigger order[i], order[j]]
            0 <= i < j < order.len() ==> spec_rows[order[i]].1 > spec_rows[order[j]].1 || (
            spec_rows[order[i]].1 == spec_rows[order[j]].1 && order[i] < order[j]),
        forall|i: int| 0 <= i < sorted.len() ==> row_view(#[trigger] sorted[i]) == spec_rows[order[i]],
    ensures
        sorted[q].1 <= sorted[p].1,
{
    if p < q {
        assert(row_view(sorted[p]) == spec_rows[order[p]]);
        assert(row_view(sorted[q]) == spec_rows[order[q]]);
    }
}

} // verus!
