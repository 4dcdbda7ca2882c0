//! Dependency resolution over a profile's load order.
//!
//! Flattening a profile yields its *enabled set*: every enabled
//! individual entry contributes its identifier at its top-level
//! position, and every enabled group reference contributes the enabled
//! children of the named group, recorded without a single position.
//! Duplicate detection and missing-dependency detection are pure
//! functions of that enabled set.

use vstd::prelude::*;

use crate::model::{compatible, ConfigView, EntryView, ModData, ModOrGroup, ModSpecification};

verus! {

/// The view of one enabled-set entry: an identifier and, for top-level
/// individual entries, the position it came from.
#[verifier::ext_equal]
pub ghost struct PlacedId {
    pub position: Option<int>,
    pub id: Seq<char>,
}

/// One entry of the flattened enabled set.
#[derive(Clone, Debug, PartialEq, Eq)]
pub struct EnabledEntry {
    pub position: Option<usize>,
    pub spec: ModSpecification,
}

impl View for EnabledEntry {
    type V = PlacedId;

    open spec fn view(&self) -> PlacedId {
        PlacedId {
            position: match self.position {
                Some(i) => Some(i as int),
                None => None,
            },
            id: self.spec@,
        }
    }
}

/// The views of a sequence of enabled-set entries.
pub open spec fn entry_views(s: Seq<EnabledEntry>) -> Seq<PlacedId> {
    s.map_values(|e: EnabledEntry| e@)
}

/// The contribution of a group's children: each enabled child, in
/// order, with no single position.
pub open spec fn enabled_children(children: Seq<ConfigView>) -> Seq<PlacedId>
    decreases children.len(),
{
    if children.len() == 0 {
        Seq::empty()
    } else {
        enabled_children(children.drop_last()) + if children.last().enabled {
            seq![PlacedId { position: None, id: children.last().id }]
        } else {
            Seq::empty()
        }
    }
}

/// The first group of that name, if any; profiles refer to groups
/// lazily, so a dangling name is simply absent.
pub open spec fn lookup_group(
    groups: Seq<(Seq<char>, Seq<ConfigView>)>,
    name: Seq<char>,
) -> Option<Seq<ConfigView>>
    decreases groups.len(),
{
    if groups.len() == 0 {
        None
    } else if groups.first().0 == name {
        Some(groups.first().1)
    } else {
        lookup_group(groups.drop_first(), name)
    }
}

/// What one load-order entry at top-level position `position`
/// contributes to the enabled set.
pub open spec fn entry_contrib(
    groups: Seq<(Seq<char>, Seq<ConfigView>)>,
    position: int,
    entry: EntryView,
) -> Seq<PlacedId> {
    match entry {
        EntryView::Mod(c) => if c.enabled {
            seq![PlacedId { position: Some(position), id: c.id }]
        } else {
            Seq::empty()
        },
        EntryView::Group { name, enabled } => if enabled {
            match lookup_group(groups, name) {
                Some(children) => enabled_children(children),
                None => Seq::empty(),
            }
        } else {
            Seq::empty()
        },
    }
}

/// The enabled set of a load order: the concatenation of every entry's
/// contribution, in load order.
pub open spec fn enabled_set(
    groups: Seq<(Seq<char>, Seq<ConfigView>)>,
    entries: Seq<EntryView>,
) -> Seq<PlacedId>
    decreases entries.len(),
{
    if entries.len() == 0 {
        Seq::empty()
    } else {
        enabled_set(groups, entries.drop_last()) + entry_contrib(
            groups,
            entries.len() - 1,
            entries.last(),
        )
    }
}

/// A group reference that is disabled at the top level contributes
/// nothing, regardless of its children's own enabled flags.
pub proof fn lemma_disabled_group_contributes_nothing(
    groups: Seq<(Seq<char>, Seq<ConfigView>)>,
    position: int,
    name: Seq<char>,
)
    ensures
        entry_contrib(groups, position, EntryView::Group { name, enabled: false })
            == Seq::<PlacedId>::empty(),
{
}

proof fn lemma_enabled_set_step(
    groups: Seq<(Seq<char>, Seq<ConfigView>)>,
    entries: Seq<EntryView>,
    i: int,
)
    requires
        0 <= i < entries.len(),
    ensures
        enabled_set(groups, entries.take(i + 1)) == enabled_set(groups, entries.take(i))
            + entry_contrib(groups, i, entries[i]),
{
    assert(entries.take(i + 1).drop_last() =~= entries.take(i));
    assert(entries.take(i + 1).last() == entries[i]);
}

proof fn lemma_enabled_children_step(children: Seq<ConfigView>, j: int)
    requires
        0 <= j < children.len(),
    ensures
        enabled_children(children.take(j + 1)) == enabled_children(children.take(j)) + if children[j].enabled {
            seq![PlacedId { position: None, id: children[j].id }]
        } else {
            Seq::<PlacedId>::empty()
        },
{
    assert(children.take(j + 1).drop_last() =~= children.take(j));
    assert(children.take(j + 1).last() == children[j]);
}

proof fn lemma_lookup_found(groups: Seq<(Seq<char>, Seq<ConfigView>)>, name: Seq<char>, i: int)
    requires
        0 <= i < groups.len(),
        groups[i].0 == name,
        forall|j: int| 0 <= j < i ==> groups[j].0 != name,
    ensures
        lookup_group(groups, name) == Some(groups[i].1),
    decreases i,
{
    if i > 0 {
        lemma_lookup_found(groups.drop_first(), name, i - 1);
    }
}

proof fn lemma_lookup_absent(groups: Seq<(Seq<char>, Seq<ConfigView>)>, name: Seq<char>)
    requires
        forall|j: int| 0 <= j < groups.len() ==> groups[j].0 != name,
    ensures
        lookup_group(groups, name) == None::<Seq<ConfigView>>,
    decreases groups.len(),
{
    if groups.len() > 0 {
        lemma_lookup_absent(groups.drop_first(), name);
    }
}

impl ModData {
    /// Flatten the named profile into its enabled set. Returns `None`
    /// exactly when no profile of that name exists.
    pub fn enabled_specs(&self, profile_name: &String) -> (r: Option<Vec<EnabledEntry>>)
        ensures
            r is Some <==> self@.profile_names().contains(profile_name@),
            match r {
                Some(v) => exists|pi: int|
                    0 <= pi < self@.profiles.len() && self@.profiles[pi].0 == profile_name@
                        && entry_views(v@) == enabled_set(self@.groups, self@.profiles[pi].1),
                None => true,
            },
    {
        let pi = match self.profile_index(profile_name) {
            Some(pi) => pi,
            None => {
                proof {
                    if self@.profile_names().contains(profile_name@) {
                        let i = choose|i: int|
                            0 <= i < self@.profile_names().len() && self@.profile_names()[i]
                                == profile_name@;
                        assert(self@.profiles[i].0 == profile_name@);
                    }
                }
                return None;
            },
        };
        proof {
            assert(self@.profile_names()[pi as int] == profile_name@);
        }
        let profile = &self.profiles[pi].1;
        let ghost entries = self@.profiles[pi as int].1;
        let ghost gview = self@.groups;
        proof {
            assert(entries.len() == profile.mods@.len());
        }
        let mut out: Vec<EnabledEntry> = Vec::new();
        let mut i: usize = 0;
        proof {
            assert(entries.take(0) =~= Seq::<EntryView>::empty());
            assert(entry_views(out@) =~= Seq::<PlacedId>::empty());
        }
        while i < profile.mods.len()
            invariant
                i <= profile.mods@.len(),
                entries == profile@,
                entries.len() == profile.mods@.len(),
                gview == self@.groups,
                entry_views(out@) == enabled_set(gview, entries.take(i as int)),
            decreases profile.mods@.len() - i,
        {
            let ghost pre = out@;
            match &profile.mods[i] {
                ModOrGroup::Individual(mc) => {
                    if mc.enabled {
                        out.push(EnabledEntry { position: Some(i), spec: mc.spec.duplicate() });
                        proof {
                            assert(entry_views(out@) =~= entry_views(pre) + entry_contrib(
                                gview,
                                i as int,
                                entries[i as int],
                            ));
                        }
                    } else {
                        proof {
                            assert(entry_views(out@) =~= entry_views(pre) + entry_contrib(
                                gview,
                                i as int,
                                entries[i as int],
                            ));
                        }
                    }
                },
                ModOrGroup::Group { group_name, enabled } => {
                    if *enabled {
                        match self.group_index(group_name) {
                            Some(gi) => {
                                proof {
                                    lemma_lookup_found(gview, group_name@, gi as int);
                                }
                                let children = &self.groups[gi].1;
                                let ghost cview = self@.groups[gi as int].1;
                                proof {
                                    assert(cview.len() == children.mods@.len());
                                }
                                let mut j: usize = 0;
                                proof {
                                    assert(cview.take(0) =~= Seq::<ConfigView>::empty());
                                    assert(entry_views(out@) =~= entry_views(pre)
                                        + enabled_children(cview.take(0)));
                                }
                                while j < children.mods.len()
                                    invariant
                                        j <= children.mods@.len(),
                                        cview == children@,
                                        cview.len() == children.mods@.len(),
                                        entry_views(out@) == entry_views(pre) + enabled_children(
                                            cview.take(j as int),
                                        ),
                                    decreases children.mods@.len() - j,
                                {
                                    let ghost mid = out@;
                                    let child = &children.mods[j];
                                    if child.enabled {
                                        out.push(
                                            EnabledEntry {
                                                position: None,
                                                spec: child.spec.duplicate(),
                                            },
                                        );
                                    }
                                    proof {
                                        lemma_enabled_children_step(cview, j as int);
                                        if child.enabled {
                                            assert(entry_views(out@) =~= entry_views(mid) + seq![
                                                PlacedId {
                                                    position: None,
                                                    id: cview[j as int].id,
                                                },
                                            ]);
                                            assert(entry_views(out@) =~= entry_views(pre)
                                                + enabled_children(cview.take(j as int + 1)));
                                        } else {
                                            assert(entry_views(out@) =~= entry_views(pre)
                                                + enabled_children(cview.take(j as int + 1)));
                                        }
                                    }
                                    j = j + 1;
                                }
                                proof {
                                    assert(cview.take(cview.len() as int) =~= cview);
                                    assert(entry_views(out@) =~= entry_views(pre) + entry_contrib(
                                        gview,
                                        i as int,
                                        entries[i as int],
                                    ));
                                }
                            },
                            None => {
                                proof {
                                    lemma_lookup_absent(gview, group_name@);
                                    assert(entry_views(out@) =~= entry_views(pre) + entry_contrib(
                                        gview,
                                        i as int,
                                        entries[i as int],
                                    ));
                                }
                            },
                        }
                    } else {
                        proof {
                            assert(entry_views(out@) =~= entry_views(pre) + entry_contrib(
                                gview,
                                i as int,
                                entries[i as int],
                            ));
                        }
                    }
                },
            }
            proof {
                lemma_enabled_set_step(gview, entries, i as int);
            }
            i = i + 1;
        }
        proof {
            assert(entries.take(entries.len() as int) =~= entries);
        }
        Some(out)
    }
}

/// An enabled-set entry is a duplicate when some earlier entry's
/// identifier is compatible with its own: the later entry is the one
/// flagged, never the one that was there first.
pub open spec fn is_duplicate_at(s: Seq<PlacedId>, j: int) -> bool {
    exists|i: int| 0 <= i < j && compatible(s[i].id, s[j].id)
}

/// For a compatible pair the later entry is always flagged, and the
/// earlier one is flagged only on account of a still earlier entry:
/// taken by itself, a pair is flagged exactly once, never twice and
/// never zero times.
pub proof fn lemma_duplicate_pair_flagged_once(s: Seq<PlacedId>, i: int, j: int)
    requires
        0 <= i < j < s.len(),
        compatible(s[i].id, s[j].id),
    ensures
        is_duplicate_at(s, j),
        (forall|k: int| 0 <= k < i ==> !compatible(s[k].id, s[i].id)) ==> !is_duplicate_at(s, i),
{
}

/// For every position of the enabled set, whether it is a duplicate of
/// an earlier entry.
pub fn duplicate_flags(entries: &Vec<EnabledEntry>) -> (r: Vec<bool>)
    ensures
        r@.len() == entries@.len(),
        forall|j: int| 0 <= j < r@.len() ==> r@[j] == is_duplicate_at(entry_views(entries@), j),
{
    let ghost s = entry_views(entries@);
    let mut r: Vec<bool> = Vec::new();
    let mut j: usize = 0;
    while j < entries.len()
        invariant
            j <= entries@.len(),
            s == entry_views(entries@),
            r@.len() == j,
            forall|q: int| 0 <= q < j ==> r@[q] == is_duplicate_at(s, q),
        decreases entries@.len() - j,
    {
        let mut found = false;
        let mut i: usize = 0;
        while i < j
            invariant
                i <= j,
                j < entries@.len(),
                s == entry_views(entries@),
                found == exists|k: int| 0 <= k < i && compatible(s[k].id, s[j as int].id),
            decreases j - i,
        {
            let hit = entries[i].spec.satisfies_dependency(&entries[j].spec);
            proof {
                assert(s[i as int] == entries@[i as int]@);
                assert(s[j as int] == entries@[j as int]@);
            }
            if hit {
                found = true;
            }
            i = i + 1;
        }
        r.push(found);
        j = j + 1;
    }
    r
}

/// Whether some enabled-set entry satisfies a dependency on `d`.
pub open spec fn dep_satisfied(s: Seq<PlacedId>, d: Seq<char>) -> bool {
    exists|i: int| 0 <= i < s.len() && compatible(s[i].id, d)
}

/// The dependencies among `deps` that no enabled-set entry satisfies,
/// each reported once, in order of first appearance.
pub open spec fn missing_ids(s: Seq<PlacedId>, deps: Seq<Seq<char>>) -> Seq<Seq<char>>
    decreases deps.len(),
{
    if deps.len() == 0 {
        Seq::empty()
    } else {
        let rest = missing_ids(s, deps.drop_last());
        if !dep_satisfied(s, deps.last()) && !rest.contains(deps.last()) {
            rest.push(deps.last())
        } else {
            rest
        }
    }
}

proof fn lemma_contains_split<T>(s: Seq<T>, x: T)
    requires
        s.len() > 0,
    ensures
        s.contains(x) <==> s.drop_last().contains(x) || x == s.last(),
{
    if s.contains(x) {
        let k = choose|k: int| 0 <= k < s.len() && s[k] == x;
        if k < s.len() - 1 {
            assert(s.drop_last()[k] == x);
        }
    }
    if s.drop_last().contains(x) {
        let k = choose|k: int| 0 <= k < s.drop_last().len() && s.drop_last()[k] == x;
        assert(s[k] == x);
    }
    if x == s.last() {
        assert(s[s.len() - 1] == x);
    }
}

proof fn lemma_contains_push<T>(s: Seq<T>, y: T, x: T)
    ensures
        s.push(y).contains(x) <==> s.contains(x) || x == y,
{
    lemma_contains_split(s.push(y), x);
    assert(s.push(y).drop_last() =~= s);
}

/// A dependency is reported missing exactly when it is declared and
/// nothing in the enabled set satisfies it, whatever its place in the
/// declaration list.
pub proof fn lemma_missing_reported(s: Seq<PlacedId>, deps: Seq<Seq<char>>, d: Seq<char>)
    ensures
        missing_ids(s, deps).contains(d) <==> deps.contains(d) && !dep_satisfied(s, d),
    decreases deps.len(),
{
    if deps.len() == 0 {
        assert(!missing_ids(s, deps).contains(d));
        assert(!deps.contains(d));
    } else {
        lemma_missing_reported(s, deps.drop_last(), d);
        lemma_missing_reported(s, deps.drop_last(), deps.last());
        let rest = missing_ids(s, deps.drop_last());
        lemma_contains_split(deps, d);
        if !dep_satisfied(s, deps.last()) && !rest.contains(deps.last()) {
            lemma_contains_push(rest, deps.last(), d);
        }
    }
}

/// And it is reported exactly once: the report never lists the same
/// identifier twice.
pub proof fn lemma_missing_reported_once(s: Seq<PlacedId>, deps: Seq<Seq<char>>)
    ensures
        forall|i: int, j: int|
            0 <= i < j < missing_ids(s, deps).len() ==> missing_ids(s, deps)[i] != missing_ids(
                s,
                deps,
            )[j],
    decreases deps.len(),
{
    if deps.len() > 0 {
        lemma_missing_reported_once(s, deps.drop_last());
        let rest = missing_ids(s, deps.drop_last());
        let whole = missing_ids(s, deps);
        if !dep_satisfied(s, deps.last()) && !rest.contains(deps.last()) {
            assert forall|i: int, j: int| 0 <= i < j < whole.len() implies whole[i] != whole[j] by {
                if j == whole.len() - 1 {
                    assert(whole[j] == deps.last());
                    assert(whole[i] == rest[i]);
                    if rest[i] == deps.last() {
                        assert(rest.contains(deps.last()));
                    }
                } else {
                    assert(whole[i] == rest[i] && whole[j] == rest[j]);
                }
            }
        }
    }
}

/// Whether `ids` already holds `d`'s identifier.
fn contains_id(ids: &Vec<ModSpecification>, d: &ModSpecification) -> (r: bool)
    ensures
        r == ids@.map_values(|m: ModSpecification| m@).contains(d@),
{
    let ghost views = ids@.map_values(|m: ModSpecification| m@);
    let mut i: usize = 0;
    while i < ids.len()
        invariant
            i <= ids@.len(),
            views == ids@.map_values(|m: ModSpecification| m@),
            forall|j: int| 0 <= j < i ==> views[j] != d@,
        decreases ids@.len() - i,
    {
        if ids[i].url == d.url {
            proof {
                assert(views[i as int] == d@);
            }
            return true;
        }
        i = i + 1;
    }
    false
}

/// Whether some entry of the enabled set satisfies a dependency on `d`.
pub fn satisfied_by_any(entries: &Vec<EnabledEntry>, d: &ModSpecification) -> (r: bool)
    ensures
        r == dep_satisfied(entry_views(entries@), d@),
{
    let ghost s = entry_views(entries@);
    let mut i: usize = 0;
    while i < entries.len()
        invariant
            i <= entries@.len(),
            s == entry_views(entries@),
            forall|j: int| 0 <= j < i ==> !compatible(s[j].id, d@),
        decreases entries@.len() - i,
    {
        let hit = entries[i].spec.satisfies_dependency(d);
        proof {
            assert(s[i as int] == entries@[i as int]@);
        }
        if hit {
            return true;
        }
        i = i + 1;
    }
    false
}

/// The declared dependencies that the enabled set leaves unsatisfied,
/// deduplicated: the input list for a follow-up resolve operation.
pub fn missing_dependencies(entries: &Vec<EnabledEntry>, deps: &Vec<ModSpecification>) -> (r: Vec<
    ModSpecification,
>)
    ensures
        r@.map_values(|m: ModSpecification| m@) == missing_ids(
            entry_views(entries@),
            deps@.map_values(|m: ModSpecification| m@),
        ),
{
    let ghost s = entry_views(entries@);
    let ghost dviews = deps@.map_values(|m: ModSpecification| m@);
    let mut r: Vec<ModSpecification> = Vec::new();
    let mut i: usize = 0;
    proof {
        assert(dviews.take(0) =~= Seq::<Seq<char>>::empty());
        assert(r@.map_values(|m: ModSpecification| m@) =~= missing_ids(s, dviews.take(0)));
    }
    while i < deps.len()
        invariant
            i <= deps@.len(),
            s == entry_views(entries@),
            dviews == deps@.map_values(|m: ModSpecification| m@),
            r@.map_values(|m: ModSpecification| m@) == missing_ids(s, dviews.take(i as int)),
        decreases deps@.len() - i,
    {
        let ghost pre = r@.map_values(|m: ModSpecification| m@);
        let d = &deps[i];
        if !satisfied_by_any(entries, d) && !contains_id(&r, d) {
            r.push(d.duplicate());
            proof {
                assert(r@.map_values(|m: ModSpecification| m@) =~= pre.push(d@));
            }
        }
        proof {
            assert(dviews.take(i as int + 1).drop_last() =~= dviews.take(i as int));
            assert(dviews.take(i as int + 1).last() == dviews[i as int]);
            assert(dviews[i as int] == d@);
            assert(r@.map_values(|m: ModSpecification| m@) == missing_ids(
                s,
                dviews.take(i as int + 1),
            ));
        }
        i = i + 1;
    }
    proof {
        assert(dviews.take(dviews.len() as int) =~= dviews);
    }
    r
}

} // verus!
