//! Violation reports: what a tool was seen to complain about, and where.

use vstd::prelude::*;
use crate::text::{bytes_eq, lemma_views_push, views};

verus! {

/// A place in a fixture's source.
#[derive(Clone, Copy, Debug, PartialEq, Eq, Structural)]
pub struct Location {
    /// Line, counted as the tool counts it.
    pub line: u32,
    /// Column, counted as the tool counts it.
    pub column: u32,
}

/// One complaint read from tool output, in the model: a tag and a place.
pub type Finding = (Seq<u8>, Location);

/// One tag of a report with the places it was seen at, in the model.
pub type Group = (Seq<u8>, Seq<Location>);

/// One complaint read from tool output.
#[derive(Clone, Debug, PartialEq, Eq)]
pub struct Diagnostic {
    /// The rule that the tool names.
    pub tag: Vec<u8>,
    /// Where the tool saw it.
    pub at: Location,
}

impl View for Diagnostic {
    type V = Finding;

    open spec fn view(&self) -> Finding {
        (self.tag@, self.at)
    }
}

/// The findings held by a sequence of diagnostics.
pub open spec fn findings(d: Seq<Diagnostic>) -> Seq<Finding> {
    d.map_values(|x: Diagnostic| x@)
}

/// The places at which `tag` occurs among `found`, in order.
pub open spec fn locations_of(found: Seq<Finding>, tag: Seq<u8>) -> Seq<Location> {
    found.filter(|f: Finding| f.0 == tag).map_values(|f: Finding| f.1)
}

/// The tags that occur among `found`, each once, in order of first
/// appearance.
pub open spec fn first_tags(found: Seq<Finding>) -> Seq<Seq<u8>>
    decreases found.len(),
{
    if found.len() == 0 {
        Seq::<Seq<u8>>::empty()
    } else {
        let before = first_tags(found.drop_last());
        if before.contains(found.last().0) {
            before
        } else {
            before.push(found.last().0)
        }
    }
}

/// The findings grouped by tag: each tag once, in order of first appearance,
/// with all its places in order of appearance.
pub open spec fn grouped(found: Seq<Finding>) -> Seq<Group> {
    first_tags(found).map_values(|t: Seq<u8>| (t, locations_of(found, t)))
}

/// The tags of a sequence of groups, in order.
pub open spec fn group_tags(groups: Seq<Group>) -> Seq<Seq<u8>> {
    groups.map_values(|g: Group| g.0)
}

/// Index of the group of `tag`, or the number of groups if there is none.
pub open spec fn group_index(groups: Seq<Group>, tag: Seq<u8>) -> int
    decreases groups.len(),
{
    if groups.len() == 0 {
        0
    } else if groups[0].0 == tag {
        0
    } else {
        1 + group_index(groups.drop_first(), tag)
    }
}

/// The groups after one more finding: its place joins the group of its tag,
/// or opens a new group at the end.
pub open spec fn recorded(groups: Seq<Group>, f: Finding) -> Seq<Group> {
    let i = group_index(groups, f.0);
    if i < groups.len() {
        groups.update(i, (f.0, groups[i].1.push(f.1)))
    } else {
        groups.push((f.0, seq![f.1]))
    }
}

/// Groups are well formed when no tag has two groups and no group is empty.
pub open spec fn well_grouped(groups: Seq<Group>) -> bool {
    &&& forall|i: int, j: int|
        0 <= i < j < groups.len() ==> (#[trigger] groups[i]).0 != (#[trigger] groups[j]).0
    &&& forall|i: int| 0 <= i < groups.len() ==> (#[trigger] groups[i]).1.len() > 0
}

/// `group_index` finds the first group of the tag.
pub proof fn lemma_group_index(groups: Seq<Group>, tag: Seq<u8>)
    ensures
        0 <= group_index(groups, tag) <= groups.len(),
        group_index(groups, tag) < groups.len() ==> groups[group_index(groups, tag)].0 == tag,
        forall|k: int| 0 <= k < group_index(groups, tag) ==> (#[trigger] groups[k]).0 != tag,
        group_index(groups, tag) < groups.len() <==> group_tags(groups).contains(tag),
    decreases groups.len(),
{
    if groups.len() == 0 {
    } else if groups[0].0 == tag {
        assert(group_tags(groups)[0] == tag);
    } else {
        let rest = groups.drop_first();
        lemma_group_index(rest, tag);
        let i = group_index(rest, tag);
        assert forall|k: int| 0 <= k < 1 + i implies (#[trigger] groups[k]).0 != tag by {
            if k > 0 {
                assert(rest[k - 1] == groups[k]);
            }
        }
        if i < rest.len() {
            assert(group_tags(groups)[1 + i] == tag);
        }
        if group_tags(groups).contains(tag) {
            let k = choose|k: int|
                0 <= k < group_tags(groups).len() && group_tags(groups)[k] == tag;
            assert(k > 0);
            assert(group_tags(rest)[k - 1] == tag);
        }
    }
}

/// The tags of `first_tags` are distinct and are exactly those that occur.
pub proof fn lemma_first_tags(found: Seq<Finding>)
    ensures
        first_tags(found).no_duplicates(),
        forall|t: Seq<u8>|
            first_tags(found).contains(t) <==> exists|k: int|
                0 <= k < found.len() && (#[trigger] found[k]).0 == t,
    decreases found.len(),
{
    if found.len() > 0 {
        let shorter = found.drop_last();
        let before = first_tags(shorter);
        lemma_first_tags(shorter);
        let last = found.last().0;
        assert forall|t: Seq<u8>| first_tags(found).contains(t) <==> exists|k: int|
            0 <= k < found.len() && (#[trigger] found[k]).0 == t by {
            if first_tags(found).contains(t) {
                if before.contains(t) {
                    let k = choose|k: int| 0 <= k < shorter.len() && (#[trigger] shorter[k]).0 == t;
                    assert(found[k].0 == t);
                } else {
                    let i = choose|i: int|
                        0 <= i < first_tags(found).len() && first_tags(found)[i] == t;
                    assert(t == last);
                    assert(found[found.len() - 1].0 == t);
                }
            }
            if exists|k: int| 0 <= k < found.len() && (#[trigger] found[k]).0 == t {
                let k = choose|k: int| 0 <= k < found.len() && (#[trigger] found[k]).0 == t;
                if k < shorter.len() {
                    assert(shorter[k].0 == t);
                    assert(before.contains(t));
                    let i = choose|i: int| 0 <= i < before.len() && before[i] == t;
                    if !before.contains(last) {
                        assert(before.push(last)[i] == t);
                    }
                } else {
                    assert(t == last);
                    if !before.contains(last) {
                        assert(before.push(last)[before.len() as int] == last);
                    }
                }
            }
        }
    }
}

/// The places of a tag after one more finding.
pub proof fn lemma_locations_push(found: Seq<Finding>, f: Finding, tag: Seq<u8>)
    ensures
        locations_of(found.push(f), tag) == if f.0 == tag {
            locations_of(found, tag).push(f.1)
        } else {
            locations_of(found, tag)
        },
{
    let keep = |x: Finding| x.0 == tag;
    let longer = found.push(f);
    assert(longer.drop_last() =~= found);
    reveal(Seq::filter);
    assert(longer.filter(keep) == if keep(f) {
        found.filter(keep).push(f)
    } else {
        found.filter(keep)
    });
    if f.0 == tag {
        assert(locations_of(longer, tag) =~= locations_of(found, tag).push(f.1));
    }
}

/// A tag that does not occur has no places.
pub proof fn lemma_locations_absent(found: Seq<Finding>, tag: Seq<u8>)
    requires
        forall|k: int| 0 <= k < found.len() ==> (#[trigger] found[k]).0 != tag,
    ensures
        locations_of(found, tag).len() == 0,
    decreases found.len(),
{
    reveal(Seq::filter);
    if found.len() > 0 {
        let shorter = found.drop_last();
        assert forall|k: int| 0 <= k < shorter.len() implies (#[trigger] shorter[k]).0 != tag by {
            assert(shorter[k] == found[k]);
        }
        lemma_locations_absent(shorter, tag);
        assert(found.last() == found[found.len() - 1]);
    }
}

/// Recording findings one by one gives the grouping of all of them.
pub proof fn lemma_grouped_push(found: Seq<Finding>, f: Finding)
    ensures
        grouped(found.push(f)) == recorded(grouped(found), f),
{
    let longer = found.push(f);
    let before = first_tags(found);
    let groups = grouped(found);
    assert(longer.drop_last() =~= found);
    assert(longer.last() == f);
    lemma_first_tags(found);
    lemma_group_index(groups, f.0);
    assert(group_tags(groups) =~= before);
    let i = group_index(groups, f.0);
    let next = recorded(groups, f);
    assert(grouped(longer).len() == next.len());
    assert forall|k: int| 0 <= k < next.len() implies grouped(longer)[k] == next[k] by {
        let t = first_tags(longer)[k];
        lemma_locations_push(found, f, t);
        if i < groups.len() {
            assert(before.contains(f.0));
            if k == i {
                assert(t == f.0);
            } else {
                assert(groups[k].0 == t);
                assert(t != f.0) by {
                    if t == f.0 {
                        assert(before[k] == before[i]);
                    }
                }
            }
        } else {
            assert(!before.contains(f.0));
            if k < groups.len() {
                assert(before[k] == t);
                assert(t != f.0);
            } else {
                assert(t == f.0);
                assert forall|j: int| 0 <= j < found.len() implies (#[trigger] found[j]).0
                    != f.0 by {
                    if found[j].0 == f.0 {
                        assert(before.contains(f.0));
                    }
                }
                lemma_locations_absent(found, f.0);
                assert(locations_of(longer, t) =~= seq![f.1]);
            }
        }
    }
    assert(grouped(longer) =~= next);
}

/// Grouping gives well-formed groups.
pub proof fn lemma_grouped_well_formed(found: Seq<Finding>)
    ensures
        well_grouped(grouped(found)),
{
    let groups = grouped(found);
    lemma_first_tags(found);
    assert forall|i: int| 0 <= i < groups.len() implies (#[trigger] groups[i]).1.len() > 0 by {
        let t = first_tags(found)[i];
        assert(first_tags(found).contains(t));
        let k = choose|k: int| 0 <= k < found.len() && (#[trigger] found[k]).0 == t;
        lemma_location_present(found, k);
    }
}

/// A finding's place is among the places of its tag.
pub proof fn lemma_location_present(found: Seq<Finding>, k: int)
    requires
        0 <= k < found.len(),
    ensures
        locations_of(found, found[k].0).len() > 0,
    decreases found.len(),
{
    let shorter = found.drop_last();
    assert(found =~= shorter.push(found.last()));
    lemma_locations_push(shorter, found.last(), found[k].0);
    if k < shorter.len() {
        lemma_location_present(shorter, k);
    }
}

/// In the grouping of findings, the group of a tag holds the places of the
/// findings of that tag, and a tag without a finding has no group.
pub proof fn lemma_grouped_places(found: Seq<Finding>, tag: Seq<u8>)
    ensures
        ({
            let groups = grouped(found);
            let i = group_index(groups, tag);
            if i < groups.len() {
                groups[i] == (tag, locations_of(found, tag))
            } else {
                locations_of(found, tag).len() == 0
            }
        }),
{
    let groups = grouped(found);
    let i = group_index(groups, tag);
    lemma_group_index(groups, tag);
    lemma_first_tags(found);
    assert(group_tags(groups) =~= first_tags(found));
    if i >= groups.len() {
        assert forall|k: int| 0 <= k < found.len() implies (#[trigger] found[k]).0 != tag by {
            if found[k].0 == tag {
                assert(first_tags(found).contains(tag));
            }
        }
        lemma_locations_absent(found, tag);
    }
}

/// Recording a finding keeps groups well formed.
pub proof fn lemma_recorded_well_formed(groups: Seq<Group>, f: Finding)
    requires
        well_grouped(groups),
    ensures
        well_grouped(recorded(groups, f)),
{
    lemma_group_index(groups, f.0);
    let i = group_index(groups, f.0);
    let next = recorded(groups, f);
    assert forall|a: int, b: int| 0 <= a < b < next.len() implies (#[trigger] next[a]).0 != (
    #[trigger] next[b]).0 by {
        if i < groups.len() {
            assert(next[a].0 == groups[a].0);
            assert(next[b].0 == groups[b].0);
        } else {
            if b < groups.len() {
                assert(next[a] == groups[a]);
                assert(next[b] == groups[b]);
            } else {
                assert(next[a] == groups[a]);
            }
        }
    }
    assert forall|a: int| 0 <= a < next.len() implies (#[trigger] next[a]).1.len() > 0 by {
        if a < groups.len() && a != i {
            assert(next[a] == groups[a]);
        }
    }
}

/// One tag of a report with the places it was seen at.
#[derive(Debug, PartialEq, Eq)]
pub struct TagEntry {
    /// The tag.
    pub tag: Vec<u8>,
    /// Where it was seen, in the order of the tool's output.
    pub occurrences: Vec<Location>,
}

impl View for TagEntry {
    type V = Group;

    open spec fn view(&self) -> Group {
        (self.tag@, self.occurrences@)
    }
}

/// The groups held by a sequence of entries.
pub open spec fn entry_views(entries: Seq<TagEntry>) -> Seq<Group> {
    entries.map_values(|e: TagEntry| e@)
}

/// Position of the entry of `tag`, or the number of entries.
fn position(entries: &Vec<TagEntry>, tag: &[u8]) -> (i: usize)
    ensures
        i == group_index(entry_views(entries@), tag@),
        i <= entries@.len(),
{
    let ghost groups = entry_views(entries@);
    let mut i: usize = 0;
    let n = entries.len();
    assert(groups.skip(0) =~= groups);
    while i < n
        invariant
            n == entries@.len(),
            groups == entry_views(entries@),
            i <= n,
            group_index(groups, tag@) == i + group_index(groups.skip(i as int), tag@),
        decreases n - i,
    {
        let ghost rest = groups.skip(i as int);
        assert(rest[0] == entries@[i as int]@);
        if bytes_eq(entries[i].tag.as_slice(), tag) {
            return i;
        }
        assert(rest.drop_first() =~= groups.skip(i + 1));
        i += 1;
    }
    i
}

/// The violations that a tool reported on one fixture: a set of tags, each
/// with the places it was seen at.
///
/// Tags are kept in order of first appearance and places in order of
/// appearance, so that a report prints the same way every time.
#[derive(Debug, PartialEq, Eq)]
pub struct ViolationReport {
    entries: Vec<TagEntry>,
}

impl View for ViolationReport {
    type V = Seq<Group>;

    closed spec fn view(&self) -> Seq<Group> {
        entry_views(self.entries@)
    }
}

impl ViolationReport {
    /// What holds of every report: no tag twice, no tag without a place.
    #[verifier::type_invariant]
    pub open spec fn well_formed(self) -> bool {
        well_grouped(self@)
    }

    /// The tags of the report, in order of first appearance.
    pub open spec fn tags(self) -> Seq<Seq<u8>> {
        group_tags(self@)
    }

    /// The places at which the report holds `tag`; none if it does not.
    pub open spec fn places(self, tag: Seq<u8>) -> Seq<Location> {
        let i = group_index(self@, tag);
        if i < self@.len() {
            self@[i].1
        } else {
            Seq::<Location>::empty()
        }
    }

    /// A report without violations.
    pub fn new() -> (report: ViolationReport)
        ensures
            report@ == Seq::<Group>::empty(),
    {
        let entries: Vec<TagEntry> = Vec::new();
        assert(entry_views(entries@) =~= Seq::<Group>::empty());
        ViolationReport { entries }
    }

    /// The report of a run of findings: each tag once, in order of first
    /// appearance, with all its places in order of appearance.
    pub fn from_diagnostics(found: &Vec<Diagnostic>) -> (report: ViolationReport)
        ensures
            report@ == grouped(findings(found@)),
    {
        let mut report = ViolationReport::new();
        let ghost all = findings(found@);
        let mut i: usize = 0;
        proof {
            assert(all.take(0) =~= Seq::<Finding>::empty());
            assert(grouped(all.take(0)) =~= Seq::<Group>::empty());
        }
        while i < found.len()
            invariant
                i <= found@.len(),
                all == findings(found@),
                report@ == grouped(all.take(i as int)),
            decreases found@.len() - i,
        {
            proof {
                assert(all.take(i + 1) =~= all.take(i as int).push(found@[i as int]@));
                lemma_grouped_push(all.take(i as int), found@[i as int]@);
            }
            report.record(vstd::slice::slice_to_vec(found[i].tag.as_slice()), found[i].at);
            i += 1;
        }
        assert(all.take(i as int) =~= all);
        report
    }

    /// The tags of the report, in order of first appearance.
    pub fn tag_list(&self) -> (list: Vec<Vec<u8>>)
        ensures
            views(list@) == self.tags(),
            self.tags().no_duplicates(),
    {
        proof {
            use_type_invariant(self);
        }
        let mut list: Vec<Vec<u8>> = Vec::new();
        let ghost all = self.tags();
        let mut i: usize = 0;
        while i < self.entries.len()
            invariant
                i <= self.entries@.len(),
                all == self.tags(),
                all.len() == self.entries@.len(),
                views(list@) == all.take(i as int),
            decreases self.entries@.len() - i,
        {
            let tag = vstd::slice::slice_to_vec(self.entries[i].tag.as_slice());
            proof {
                lemma_views_push(list@, tag);
                assert(all[i as int] == self@[i as int].0);
                assert(all.take(i + 1) =~= all.take(i as int).push(tag@));
            }
            list.push(tag);
            i += 1;
        }
        assert(all.take(i as int) =~= all);
        list
    }

    /// The number of tags in the report.
    pub fn tag_count(&self) -> (count: usize)
        ensures
            count == self@.len(),
    {
        self.entries.len()
    }

    /// Whether the report holds no violation.
    pub fn is_empty(&self) -> (yes: bool)
        ensures
            yes == (self@.len() == 0),
    {
        self.entries.len() == 0
    }

    /// Whether the report holds `tag`.
    pub fn contains(&self, tag: &[u8]) -> (yes: bool)
        ensures
            yes == self.tags().contains(tag@),
    {
        proof {
            lemma_group_index(self@, tag@);
        }
        position(&self.entries, tag) < self.entries.len()
    }

    /// The places at which `tag` was seen, in order; none if the report
    /// does not hold it.
    pub fn occurrences(&self, tag: &[u8]) -> (places: Vec<Location>)
        ensures
            places@ == self.places(tag@),
    {
        let i = position(&self.entries, tag);
        if i < self.entries.len() {
            assert(self@[i as int] == self.entries@[i as int]@);
            vstd::slice::slice_to_vec(self.entries[i].occurrences.as_slice())
        } else {
            Vec::new()
        }
    }

    /// Adds one finding: its place joins the entry of its tag, or opens a
    /// new entry at the end.
    pub fn record(&mut self, tag: Vec<u8>, at: Location)
        ensures
            final(self)@ == recorded(old(self)@, (tag@, at)),
    {
        proof {
            use_type_invariant(&*self);
            lemma_group_index(self@, tag@);
            lemma_recorded_well_formed(self@, (tag@, at));
        }
        let ghost before = self@;
        let mut entries: Vec<TagEntry> = Vec::new();
        assert(entry_views(entries@) =~= Seq::<Group>::empty());
        std::mem::swap(&mut entries, &mut self.entries);
        let i = position(&entries, tag.as_slice());
        if i < entries.len() {
            entries[i].occurrences.push(at);
            assert(entry_views(entries@) =~= before.update(
                i as int,
                (tag@, before[i as int].1.push(at)),
            ));
        } else {
            let mut occurrences: Vec<Location> = Vec::new();
            occurrences.push(at);
            assert(occurrences@ =~= seq![at]);
            entries.push(TagEntry { tag, occurrences });
            assert(entry_views(entries@) =~= before.push((tag@, seq![at])));
        }
        self.entries = entries;
    }
}

} // verus!
