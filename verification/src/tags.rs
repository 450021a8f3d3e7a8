//! Lists of violation tags.
//!
//! A tag is a byte string that names a lint or formatting rule. The lists
//! here stand for sets: the order is kept for printing, and a well-formed
//! list holds no tag twice.

use vstd::prelude::*;
use vstd::slice::slice_to_vec;
use crate::text::{bytes_eq, lemma_views_push, views};

verus! {

/// The test for tags that are not in `list`.
pub open spec fn not_in(list: Seq<Seq<u8>>) -> spec_fn(Seq<u8>) -> bool {
    |t: Seq<u8>| !list.contains(t)
}

/// The tags of `list` that are not in `other`, in the order of `list`.
pub open spec fn difference(list: Seq<Seq<u8>>, other: Seq<Seq<u8>>) -> Seq<Seq<u8>> {
    list.filter(not_in(other))
}

/// Whether every tag of `list` is in `other`.
pub open spec fn subset_of(list: Seq<Seq<u8>>, other: Seq<Seq<u8>>) -> bool {
    forall|i: int| 0 <= i < list.len() ==> other.contains(#[trigger] list[i])
}

/// The difference is empty exactly when the list is a subset.
pub proof fn lemma_difference_empty(list: Seq<Seq<u8>>, other: Seq<Seq<u8>>)
    ensures
        difference(list, other).len() == 0 <==> subset_of(list, other),
    decreases list.len(),
{
    reveal(Seq::filter);
    if list.len() > 0 {
        let shorter = list.drop_last();
        lemma_difference_empty(shorter, other);
        if subset_of(list, other) {
            assert forall|i: int| 0 <= i < shorter.len() implies other.contains(
                #[trigger] shorter[i],
            ) by {
                assert(shorter[i] == list[i]);
            }
            assert(other.contains(list[list.len() - 1]));
        }
        if difference(list, other).len() == 0 {
            assert forall|i: int| 0 <= i < list.len() implies other.contains(
                #[trigger] list[i],
            ) by {
                if i < shorter.len() {
                    assert(shorter[i] == list[i]);
                }
            }
        }
    }
}

/// The difference holds exactly the tags of the list that the other lacks,
/// and none twice if the list holds none twice.
pub proof fn lemma_difference_members(list: Seq<Seq<u8>>, other: Seq<Seq<u8>>)
    ensures
        forall|t: Seq<u8>|
            #[trigger] difference(list, other).contains(t) <==> list.contains(t)
                && !other.contains(t),
        list.no_duplicates() ==> difference(list, other).no_duplicates(),
    decreases list.len(),
{
    reveal(Seq::filter);
    if list.len() > 0 {
        let shorter = list.drop_last();
        let last = list.last();
        lemma_difference_members(shorter, other);
        let d = difference(list, other);
        let ds = difference(shorter, other);
        assert forall|t: Seq<u8>| #[trigger] d.contains(t) <==> list.contains(t)
            && !other.contains(t) by {
            if d.contains(t) {
                let i = choose|i: int| 0 <= i < d.len() && d[i] == t;
                if i < ds.len() {
                    assert(ds[i] == t);
                    assert(ds.contains(t));
                    let k = choose|k: int| 0 <= k < shorter.len() && shorter[k] == t;
                    assert(list[k] == t);
                } else {
                    assert(t == last);
                    assert(list[list.len() - 1] == t);
                }
            }
            if list.contains(t) && !other.contains(t) {
                let k = choose|k: int| 0 <= k < list.len() && list[k] == t;
                if k < shorter.len() {
                    assert(shorter[k] == t);
                    assert(shorter.contains(t));
                    assert(ds.contains(t));
                    let i = choose|i: int| 0 <= i < ds.len() && ds[i] == t;
                    assert(d[i] == t);
                } else {
                    assert(d[d.len() - 1] == t);
                }
            }
        }
        if list.no_duplicates() {
            assert(shorter.no_duplicates());
            if !other.contains(last) {
                assert(!ds.contains(last)) by {
                    if ds.contains(last) {
                        assert(shorter.contains(last));
                        let k = choose|k: int| 0 <= k < shorter.len() && shorter[k] == last;
                        assert(list[k] == list[list.len() - 1]);
                    }
                }
            }
        }
    }
}

/// Where the other list holds none of its tags, the difference is the whole
/// list.
pub proof fn lemma_difference_disjoint(list: Seq<Seq<u8>>, other: Seq<Seq<u8>>)
    requires
        forall|i: int| 0 <= i < list.len() ==> !other.contains(#[trigger] list[i]),
    ensures
        difference(list, other) == list,
    decreases list.len(),
{
    reveal(Seq::filter);
    if list.len() > 0 {
        let shorter = list.drop_last();
        assert forall|i: int| 0 <= i < shorter.len() implies !other.contains(
            #[trigger] shorter[i],
        ) by {
            assert(shorter[i] == list[i]);
        }
        lemma_difference_disjoint(shorter, other);
        assert(!other.contains(list[list.len() - 1]));
        assert(difference(list, other) =~= list);
    } else {
        assert(difference(list, other) =~= list);
    }
}

/// Whether `list` holds `tag`.
pub fn contains_tag(list: &Vec<Vec<u8>>, tag: &[u8]) -> (yes: bool)
    ensures
        yes == views(list@).contains(tag@),
{
    let mut i: usize = 0;
    while i < list.len()
        invariant
            i <= list@.len(),
            forall|k: int| 0 <= k < i ==> views(list@)[k] != tag@,
        decreases list@.len() - i,
    {
        assert(views(list@)[i as int] == list@[i as int]@);
        if bytes_eq(list[i].as_slice(), tag) {
            return true;
        }
        i += 1;
    }
    false
}

/// Whether `list` holds no tag twice.
pub fn all_distinct(list: &Vec<Vec<u8>>) -> (yes: bool)
    ensures
        yes == views(list@).no_duplicates(),
{
    let mut i: usize = 0;
    while i < list.len()
        invariant
            i <= list@.len(),
            forall|a: int, b: int| 0 <= a < b < i ==> views(list@)[a] != views(list@)[b],
        decreases list@.len() - i,
    {
        let mut j: usize = 0;
        while j < i
            invariant
                j <= i < list@.len(),
                forall|a: int| 0 <= a < j ==> views(list@)[a] != views(list@)[i as int],
            decreases i - j,
        {
            assert(views(list@)[i as int] == list@[i as int]@);
            assert(views(list@)[j as int] == list@[j as int]@);
            if bytes_eq(list[j].as_slice(), list[i].as_slice()) {
                return false;
            }
            j += 1;
        }
        i += 1;
    }
    true
}

/// A copy of `list`.
pub fn copy_tags(list: &Vec<Vec<u8>>) -> (copy: Vec<Vec<u8>>)
    ensures
        views(copy@) == views(list@),
{
    let mut copy: Vec<Vec<u8>> = Vec::new();
    let mut i: usize = 0;
    while i < list.len()
        invariant
            i <= list@.len(),
            views(copy@) == views(list@).take(i as int),
        decreases list@.len() - i,
    {
        let tag = slice_to_vec(list[i].as_slice());
        proof {
            lemma_views_push(copy@, tag);
            assert(views(list@).take(i + 1) =~= views(list@).take(i as int).push(list@[i as int]@));
        }
        copy.push(tag);
        i += 1;
    }
    assert(views(list@).take(i as int) =~= views(list@));
    copy
}

/// The tags of `list` that `other` lacks, in the order of `list`.
pub fn without(list: &Vec<Vec<u8>>, other: &Vec<Vec<u8>>) -> (rest: Vec<Vec<u8>>)
    ensures
        views(rest@) == difference(views(list@), views(other@)),
{
    let mut rest: Vec<Vec<u8>> = Vec::new();
    let ghost all = views(list@);
    let ghost test = not_in(views(other@));
    let mut i: usize = 0;
    proof {
        assert(all.take(0).filter(test) =~= Seq::<Seq<u8>>::empty()) by {
            reveal(Seq::filter);
        }
    }
    while i < list.len()
        invariant
            i <= list@.len(),
            all == views(list@),
            test == not_in(views(other@)),
            views(rest@) == all.take(i as int).filter(test),
        decreases list@.len() - i,
    {
        proof {
            assert(all.take(i + 1) =~= all.take(i as int).push(list@[i as int]@));
            all.take(i as int).lemma_filter_push(list@[i as int]@, test);
        }
        if !contains_tag(other, list[i].as_slice()) {
            let tag = slice_to_vec(list[i].as_slice());
            proof {
                lemma_views_push(rest@, tag);
            }
            rest.push(tag);
        }
        i += 1;
    }
    assert(all.take(i as int) =~= all);
    rest
}

} // verus!
