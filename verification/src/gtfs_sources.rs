//! Which sources of feeds to load, and in which order.
//!
//! A source is a directory or an archive. The names and sizes are found by
//! whoever walks the file system; what to do with them is decided here. Names
//! are compared byte for byte.

use crate::header::bytes_equal;
use vstd::prelude::*;

verus! {

/// Whether an archive is to be left out: it has no name, or a directory has
/// the name that the archive has without its extension, so that the archive
/// is taken for a packed copy of the directory.
pub open spec fn is_duplicate(folder_names: Seq<Vec<u8>>, archive_stem: Option<Vec<u8>>) -> bool {
    match archive_stem {
        Some(stem) => exists|j: int| 0 <= j < folder_names.len() && folder_names[j]@ == stem@,
        None => true,
    }
}

/// The indices of the first `n` archives that are kept, in order.
pub open spec fn kept_archives(
    folder_names: Seq<Vec<u8>>,
    archive_stems: Seq<Option<Vec<u8>>>,
    deduplicate: bool,
    n: int,
) -> Seq<usize>
    decreases n,
{
    if n <= 0 {
        Seq::empty()
    } else {
        let before = kept_archives(folder_names, archive_stems, deduplicate, n - 1);
        if deduplicate && is_duplicate(folder_names, archive_stems[n - 1]) {
            before
        } else {
            before.push((n - 1) as usize)
        }
    }
}

/// Whether an archive is to be left out as a copy of a directory.
pub fn is_duplicate_archive(
    folder_names: &Vec<Vec<u8>>,
    archive_stem: &Option<Vec<u8>>,
) -> (duplicate: bool)
    ensures
        duplicate == is_duplicate(folder_names@, *archive_stem),
{
    match archive_stem {
        Some(stem) => {
            let mut j: usize = 0;
            while j < folder_names.len()
                invariant
                    *archive_stem == Some(*stem),
                    j <= folder_names@.len(),
                    forall|k: int| 0 <= k < j ==> (#[trigger] folder_names@[k])@ != stem@,
                decreases folder_names@.len() - j,
            {
                if bytes_equal(folder_names[j].as_slice(), stem.as_slice()) {
                    assert(folder_names@[j as int]@ == stem@);
                    return true;
                }
                j += 1;
            }
            false
        },
        None => true,
    }
}

/// Picks the archives to load: all of them, or, with `deduplicate_archives`,
/// those that are no copy of a directory. Returns their indices, in order.
pub fn select_archives(
    folder_names: &Vec<Vec<u8>>,
    archive_stems: &Vec<Option<Vec<u8>>>,
    deduplicate_archives: bool,
) -> (kept: Vec<usize>)
    ensures
        kept@ == kept_archives(
            folder_names@,
            archive_stems@,
            deduplicate_archives,
            archive_stems@.len() as int,
        ),
{
    let mut kept: Vec<usize> = Vec::new();
    let mut i: usize = 0;
    while i < archive_stems.len()
        invariant
            i <= archive_stems@.len(),
            kept@ == kept_archives(folder_names@, archive_stems@, deduplicate_archives, i as int),
        decreases archive_stems@.len() - i,
    {
        if !(deduplicate_archives && is_duplicate_archive(folder_names, &archive_stems[i])) {
            kept.push(i);
        }
        i += 1;
    }
    kept
}

/// Whether source `a` comes before source `b` when the largest comes first.
/// Of two sources of the same size, the later one comes first.
pub open spec fn comes_before(sizes: Seq<u64>, a: int, b: int) -> bool {
    sizes[a] > sizes[b] || (sizes[a] == sizes[b] && a > b)
}

/// Whether `order` lists the first `n` sources, each once, the largest first.
pub open spec fn is_order_by_size(sizes: Seq<u64>, order: Seq<usize>, n: int) -> bool {
    &&& order.len() == n
    &&& forall|k: int| 0 <= k < order.len() ==> (#[trigger] order[k]) < n
    &&& forall|k: int, l: int|
        0 <= k < l < order.len() ==> comes_before(
            sizes,
            #[trigger] order[k] as int,
            #[trigger] order[l] as int,
        )
}

/// Orders the sources by size, so that the largest is loaded first. Returns
/// the indices of the sources in that order.
pub fn sort_gtfs_sources_by_size(sizes: &Vec<u64>) -> (order: Vec<usize>)
    ensures
        is_order_by_size(sizes@, order@, sizes@.len() as int),
{
    let mut order: Vec<usize> = Vec::with_capacity(sizes.len());
    let mut i: usize = 0;
    while i < sizes.len()
        invariant
            i <= sizes@.len(),
            is_order_by_size(sizes@, order@, i as int),
        decreases sizes@.len() - i,
    {
        // The place of source `i`: before the first source that is not larger.
        let mut p: usize = 0;
        while p < order.len() && sizes[order[p]] > sizes[i]
            invariant
                i < sizes@.len(),
                is_order_by_size(sizes@, order@, i as int),
                p <= order@.len(),
                forall|k: int|
                    0 <= k < p ==> sizes@[(#[trigger] order@[k]) as int] > sizes@[i as int],
            decreases order@.len() - p,
        {
            p += 1;
        }
        let ghost before = order@;
        order.insert(p, i);
        proof {
            assert forall|k: int, l: int| 0 <= k < l < order@.len() implies comes_before(
                sizes@,
                #[trigger] order@[k] as int,
                #[trigger] order@[l] as int,
            ) by {
                if l < p {
                    assert(comes_before(sizes@, before[k] as int, before[l] as int));
                } else if l == p {
                    assert(sizes@[before[k] as int] > sizes@[i as int]);
                } else if k == p {
                    assert(comes_before(sizes@, before[p as int] as int, before[l - 1] as int)
                        || l - 1 == p);
                    assert(sizes@[before[l - 1] as int] <= sizes@[before[p as int] as int]) by {
                        if l - 1 > p {
                            assert(comes_before(
                                sizes@,
                                before[p as int] as int,
                                before[l - 1] as int,
                            ));
                        }
                    }
                } else if k < p {
                    assert(comes_before(sizes@, before[k] as int, before[l - 1] as int));
                } else {
                    assert(comes_before(sizes@, before[k - 1] as int, before[l - 1] as int));
                }
            }
        }
        i += 1;
    }
    order
}

/// An order by size holds every source, and is the only such order.
pub proof fn lemma_order_by_size_is_unique(sizes: Seq<u64>, first: Seq<usize>, second: Seq<usize>)
    requires
        is_order_by_size(sizes, first, sizes.len() as int),
        is_order_by_size(sizes, second, sizes.len() as int),
    ensures
        first == second,
        forall|s: usize| s < sizes.len() ==> #[trigger] first.contains(s),
{
    lemma_order_prefix(sizes, first, second, sizes.len() as int);
    assert(first =~= second);
    assert forall|s: usize| s < sizes.len() implies #[trigger] first.contains(s) by {
        lemma_order_holds_all(sizes, first, s as int);
    }
}

/// The `k`-th source of an order by size has exactly `k` sources before it.
proof fn lemma_order_prefix(sizes: Seq<u64>, first: Seq<usize>, second: Seq<usize>, n: int)
    requires
        is_order_by_size(sizes, first, sizes.len() as int),
        is_order_by_size(sizes, second, sizes.len() as int),
        0 <= n <= sizes.len(),
    ensures
        forall|k: int| 0 <= k < n ==> first[k] == second[k],
    decreases n,
{
    if n > 0 {
        lemma_order_prefix(sizes, first, second, n - 1);
        let a = first[n - 1] as int;
        let b = second[n - 1] as int;
        if a != b {
            // Each of the two holds the other's source somewhere, and it
            // cannot be among the first sources, which are the same.
            lemma_order_holds_all(sizes, first, b);
            lemma_order_holds_all(sizes, second, a);
            let i = choose|i: int| 0 <= i < first.len() && first[i] == b as usize;
            let j = choose|j: int| 0 <= j < second.len() && second[j] == a as usize;
            if i < n - 1 {
                assert(comes_before(sizes, second[i] as int, second[n - 1] as int));
            }
            if j < n - 1 {
                assert(comes_before(sizes, first[j] as int, first[n - 1] as int));
            }
            assert(comes_before(sizes, first[n - 1] as int, first[i] as int));
            assert(comes_before(sizes, second[n - 1] as int, second[j] as int));
        }
    }
}

/// A list of `n` different numbers below `n` holds every number below `n`.
proof fn lemma_order_holds_all(sizes: Seq<u64>, order: Seq<usize>, s: int)
    requires
        is_order_by_size(sizes, order, sizes.len() as int),
        0 <= s < sizes.len(),
    ensures
        exists|i: int| 0 <= i < order.len() && order[i] == s as usize,
{
    let numbers = Set::new(|v: int| 0 <= v < sizes.len());
    let listed = Set::new(|v: int| exists|i: int| 0 <= i < order.len() && order[i] == v);
    lemma_listed_size(sizes, order, order.len() as int);
    let up_to = Set::new(
        |v: int| exists|i: int| 0 <= i < order.len() as int && #[trigger] order[i] == v,
    );
    assert(up_to =~= listed);
    assert(numbers =~= vstd::set_lib::set_int_range(0, sizes.len() as int));
    vstd::set_lib::lemma_int_range(0, sizes.len() as int);
    assert(listed.subset_of(numbers)) by {
        assert forall|v: int| listed.contains(v) implies numbers.contains(v) by {
            let i = choose|i: int| 0 <= i < order.len() && order[i] == v;
            assert(order[i] < sizes.len());
        }
    }
    vstd::set_lib::lemma_subset_equality(listed, numbers);
    assert(listed.contains(s));
}

/// The first `n` sources of an order by size are `n` different sources.
proof fn lemma_listed_size(sizes: Seq<u64>, order: Seq<usize>, n: int)
    requires
        is_order_by_size(sizes, order, sizes.len() as int),
        0 <= n <= order.len(),
    ensures
        Set::new(|v: int| exists|i: int| 0 <= i < n && #[trigger] order[i] == v).finite(),
        Set::new(|v: int| exists|i: int| 0 <= i < n && #[trigger] order[i] == v).len() == n,
    decreases n,
{
    let listed = Set::new(|v: int| exists|i: int| 0 <= i < n && #[trigger] order[i] == v);
    if n == 0 {
        assert(listed =~= Set::empty());
    } else {
        lemma_listed_size(sizes, order, n - 1);
        let before = Set::new(|v: int| exists|i: int| 0 <= i < n - 1 && #[trigger] order[i] == v);
        let last = order[n - 1] as int;
        assert(!before.contains(last)) by {
            if before.contains(last) {
                let i = choose|i: int| 0 <= i < n - 1 && #[trigger] order[i] == last;
                assert(comes_before(sizes, order[i] as int, order[n - 1] as int));
            }
        }
        assert(listed =~= before.insert(last)) by {
            assert forall|v: int| listed.contains(v) implies before.insert(last).contains(v) by {
                let i = choose|i: int| 0 <= i < n && #[trigger] order[i] == v;
                if i < n - 1 {
                    assert(before.contains(v));
                }
            }
            assert forall|v: int| before.insert(last).contains(v) implies listed.contains(v) by {
                if v == last {
                    assert(order[n - 1] == v);
                } else {
                    let i = choose|i: int| 0 <= i < n - 1 && #[trigger] order[i] == v;
                    assert(order[i] == v);
                }
            }
        }
    }
}

} // verus!
