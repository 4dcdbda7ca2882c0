//! The mod/profile data model.
//!
//! A `ModData` owns a family of named profiles and a family of named,
//! reusable groups, plus the name of the currently active profile. A
//! profile is an ordered load-order list whose entries are either an
//! individual mod configuration or a reference to a group by name; the
//! order of that list is semantically significant. Well-formedness
//! (`ModData::wf`) keeps profile and group names unique and keeps the
//! active-profile name resolvable; a dangling group reference is legal
//! and simply contributes nothing when a profile is flattened.

use vstd::prelude::*;

verus! {

/// An opaque identifier (for instance a URL) naming a mod and,
/// implicitly, its provider. Immutable once created.
#[derive(Clone, Debug, PartialEq, Eq)]
pub struct ModSpecification {
    pub url: String,
}

impl View for ModSpecification {
    type V = Seq<char>;

    open spec fn view(&self) -> Seq<char> {
        self.url@
    }
}

/// Two identifiers are compatible when one is a prefix of the other;
/// a compatible entry satisfies a dependency on the other. The relation
/// is symmetric and reflexive.
pub open spec fn compatible(a: Seq<char>, b: Seq<char>) -> bool {
    a.is_prefix_of(b) || b.is_prefix_of(a)
}

impl ModSpecification {
    pub fn new(url: String) -> (r: ModSpecification)
        ensures
            r@ == url@,
    {
        ModSpecification { url }
    }

    /// A verified copy: the copy carries the same identifier.
    pub fn duplicate(&self) -> (r: ModSpecification)
        ensures
            r@ == self@,
    {
        ModSpecification { url: self.url.clone() }
    }

    /// Whether this identifier satisfies a dependency on `other`.
    pub fn satisfies_dependency(&self, other: &ModSpecification) -> (r: bool)
        ensures
            r == compatible(self@, other@),
    {
        let a = self.url.as_str();
        let b = other.url.as_str();
        let a_len = a.unicode_len();
        let b_len = b.unicode_len();
        let short: usize = if a_len <= b_len { a_len } else { b_len };
        let mut i: usize = 0;
        while i < short
            invariant
                i <= short,
                short == if a@.len() <= b@.len() { a@.len() } else { b@.len() },
                a_len == a@.len(),
                b_len == b@.len(),
                a@ == self@,
                b@ == other@,
                forall|j: int| 0 <= j < i ==> a@[j] == b@[j],
            decreases short - i,
        {
            if a.get_char(i) != b.get_char(i) {
                proof {
                    assert(!self@.is_prefix_of(other@));
                    assert(!other@.is_prefix_of(self@));
                }
                return false;
            }
            i = i + 1;
        }
        proof {
            if a@.len() <= b@.len() {
                assert(self@ =~= other@.subrange(0, self@.len() as int));
            } else {
                assert(other@ =~= self@.subrange(0, other@.len() as int));
            }
        }
        true
    }
}

/// The view of a `ModConfig`: its identifier and its enabled flag.
#[verifier::ext_equal]
pub ghost struct ConfigView {
    pub id: Seq<char>,
    pub enabled: bool,
}

/// A mod identifier together with its enabled flag. Toggled by the user
/// interface; never removed automatically.
#[derive(Clone, Debug, PartialEq, Eq)]
pub struct ModConfig {
    pub spec: ModSpecification,
    pub enabled: bool,
}

impl View for ModConfig {
    type V = ConfigView;

    open spec fn view(&self) -> ConfigView {
        ConfigView { id: self.spec@, enabled: self.enabled }
    }
}

impl ModConfig {
    pub fn new(spec: ModSpecification, enabled: bool) -> (r: ModConfig)
        ensures
            r@ == (ConfigView { id: spec@, enabled }),
    {
        ModConfig { spec, enabled }
    }

    pub fn duplicate(&self) -> (r: ModConfig)
        ensures
            r@ == self@,
    {
        ModConfig { spec: self.spec.duplicate(), enabled: self.enabled }
    }
}

/// The view of a load-order entry.
#[verifier::ext_equal]
pub ghost enum EntryView {
    Mod(ConfigView),
    Group { name: Seq<char>, enabled: bool },
}

/// One entry of a profile's load order: an individual mod, or a named
/// group reference with its own enabled flag.
#[derive(Clone, Debug, PartialEq, Eq)]
pub enum ModOrGroup {
    Individual(ModConfig),
    Group { group_name: String, enabled: bool },
}

impl View for ModOrGroup {
    type V = EntryView;

    open spec fn view(&self) -> EntryView {
        match self {
            ModOrGroup::Individual(mc) => EntryView::Mod(mc@),
            ModOrGroup::Group { group_name, enabled } => EntryView::Group {
                name: group_name@,
                enabled: *enabled,
            },
        }
    }
}

impl ModOrGroup {
    pub fn duplicate(&self) -> (r: ModOrGroup)
        ensures
            r@ == self@,
    {
        match self {
            ModOrGroup::Individual(mc) => ModOrGroup::Individual(mc.duplicate()),
            ModOrGroup::Group { group_name, enabled } => ModOrGroup::Group {
                group_name: group_name.clone(),
                enabled: *enabled,
            },
        }
    }
}

/// A named, reusable ordered list of mod configurations, shareable
/// across profiles.
#[derive(Clone, Debug, PartialEq, Eq)]
pub struct ModGroup {
    pub mods: Vec<ModConfig>,
}

impl View for ModGroup {
    type V = Seq<ConfigView>;

    open spec fn view(&self) -> Seq<ConfigView> {
        self.mods@.map_values(|m: ModConfig| m@)
    }
}

/// An ordered load-order list of individual mods and group references.
#[derive(Clone, Debug, PartialEq, Eq)]
pub struct ModProfile {
    pub mods: Vec<ModOrGroup>,
}

impl View for ModProfile {
    type V = Seq<EntryView>;

    open spec fn view(&self) -> Seq<EntryView> {
        self.mods@.map_values(|m: ModOrGroup| m@)
    }
}

impl ModProfile {
    pub fn new() -> (r: ModProfile)
        ensures
            r@ == Seq::<EntryView>::empty(),
    {
        let r = ModProfile { mods: Vec::new() };
        proof {
            assert(r@ =~= Seq::<EntryView>::empty());
        }
        r
    }

    /// Append an entry at the end of the load order.
    pub fn push_entry(&mut self, entry: ModOrGroup)
        ensures
            final(self)@ == old(self)@.push(entry@),
    {
        let ghost e = entry@;
        self.mods.push(entry);
        proof {
            assert(final(self)@ =~= old(self)@.push(e));
        }
    }

    /// Remove the entry at `index`, closing the gap; the rest keeps its
    /// order.
    pub fn remove_entry(&mut self, index: usize) -> (r: ModOrGroup)
        requires
            index < old(self)@.len(),
        ensures
            r@ == old(self)@[index as int],
            final(self)@ == old(self)@.remove(index as int),
    {
        let r = self.mods.remove(index);
        proof {
            assert(final(self)@ =~= old(self)@.remove(index as int));
        }
        r
    }

    /// Set the enabled flag of an individual entry; a group reference's
    /// flag is set the same way.
    pub fn set_enabled(&mut self, index: usize, enabled: bool)
        requires
            index < old(self)@.len(),
        ensures
            final(self)@ == old(self)@.update(
                index as int,
                match old(self)@[index as int] {
                    EntryView::Mod(c) => EntryView::Mod(ConfigView { id: c.id, enabled }),
                    EntryView::Group { name, enabled: _ } => EntryView::Group { name, enabled },
                },
            ),
    {
        let entry = &mut self.mods[index];
        match entry {
            ModOrGroup::Individual(mc) => {
                mc.enabled = enabled;
            },
            ModOrGroup::Group { group_name: _, enabled: e } => {
                *e = enabled;
            },
        }
        proof {
            assert(final(self)@ =~= old(self)@.update(
                index as int,
                match old(self)@[index as int] {
                    EntryView::Mod(c) => EntryView::Mod(ConfigView { id: c.id, enabled }),
                    EntryView::Group { name, enabled: _ } => EntryView::Group { name, enabled },
                },
            ));
        }
    }
}

/// The view of a whole `ModData`.
#[verifier::ext_equal]
pub ghost struct DataView {
    pub profiles: Seq<(Seq<char>, Seq<EntryView>)>,
    pub groups: Seq<(Seq<char>, Seq<ConfigView>)>,
    pub active_profile: Seq<char>,
}

impl DataView {
    /// Profile names, in order.
    pub open spec fn profile_names(self) -> Seq<Seq<char>> {
        self.profiles.map_values(|p: (Seq<char>, Seq<EntryView>)| p.0)
    }

    /// Group names, in order.
    pub open spec fn group_names(self) -> Seq<Seq<char>> {
        self.groups.map_values(|g: (Seq<char>, Seq<ConfigView>)| g.0)
    }

    /// Names are unique and the active profile resolves.
    pub open spec fn wf(self) -> bool {
        &&& forall|i: int, j: int|
            0 <= i < j < self.profiles.len() ==> self.profiles[i].0 != self.profiles[j].0
        &&& forall|i: int, j: int|
            0 <= i < j < self.groups.len() ==> self.groups[i].0 != self.groups[j].0
        &&& self.profile_names().contains(self.active_profile)
    }
}

/// Profiles and groups keyed by name, plus the name of the active
/// profile. The whole structure is loaded once at startup, mutated by
/// user actions, and saved as a whole.
#[derive(Clone, Debug, PartialEq, Eq)]
pub struct ModData {
    pub profiles: Vec<(String, ModProfile)>,
    pub groups: Vec<(String, ModGroup)>,
    pub active_profile: String,
}

impl View for ModData {
    type V = DataView;

    open spec fn view(&self) -> DataView {
        DataView {
            profiles: self.profiles@.map_values(|p: (String, ModProfile)| (p.0@, p.1@)),
            groups: self.groups@.map_values(|g: (String, ModGroup)| (g.0@, g.1@)),
            active_profile: self.active_profile@,
        }
    }
}

impl ModData {
    /// A fresh store holding one empty profile, which is active.
    pub fn new(profile_name: String) -> (r: ModData)
        ensures
            r@.profiles == seq![(profile_name@, Seq::<EntryView>::empty())],
            r@.groups == Seq::<(Seq<char>, Seq<ConfigView>)>::empty(),
            r@.active_profile == profile_name@,
            r@.wf(),
    {
        let active = profile_name.clone();
        let mut profiles: Vec<(String, ModProfile)> = Vec::new();
        profiles.push((profile_name, ModProfile::new()));
        let r = ModData { profiles, groups: Vec::new(), active_profile: active };
        proof {
            assert(r@.profiles =~= seq![(profile_name@, Seq::<EntryView>::empty())]);
            assert(r@.groups =~= Seq::<(Seq<char>, Seq<ConfigView>)>::empty());
            assert(r@.profile_names().contains(r@.active_profile)) by {
                assert(r@.profile_names()[0] == profile_name@);
            }
        }
        r
    }

    /// Whether the store is well formed: names unique on both sides,
    /// active profile resolvable. What `from_text` read back should be
    /// held to this before it is trusted.
    pub fn is_wf(&self) -> (r: bool)
        ensures
            r == self@.wf(),
    {
        let mut i: usize = 0;
        while i < self.profiles.len()
            invariant
                i <= self@.profiles.len(),
                forall|a: int, b: int|
                    0 <= a < b < self@.profiles.len() && a < i ==> self@.profiles[a].0
                        != self@.profiles[b].0,
            decreases self@.profiles.len() - i,
        {
            let mut j: usize = i + 1;
            while j < self.profiles.len()
                invariant
                    i < j <= self@.profiles.len(),
                    i < self@.profiles.len(),
                    forall|b: int| i < b < j ==> self@.profiles[i as int].0 != self@.profiles[b].0,
                decreases self@.profiles.len() - j,
            {
                if self.profiles[i].0 == self.profiles[j].0 {
                    proof {
                        assert(!self@.wf()) by {
                            if self@.wf() {
                                assert(self@.profiles[i as int].0 != self@.profiles[j as int].0);
                            }
                        }
                    }
                    return false;
                }
                j = j + 1;
            }
            i = i + 1;
        }
        let mut i2: usize = 0;
        while i2 < self.groups.len()
            invariant
                i2 <= self@.groups.len(),
                forall|a: int, b: int|
                    0 <= a < b < self@.groups.len() && a < i2 ==> self@.groups[a].0
                        != self@.groups[b].0,
            decreases self@.groups.len() - i2,
        {
            let mut j2: usize = i2 + 1;
            while j2 < self.groups.len()
                invariant
                    i2 < j2 <= self@.groups.len(),
                    i2 < self@.groups.len(),
                    forall|b: int| i2 < b < j2 ==> self@.groups[i2 as int].0 != self@.groups[b].0,
                decreases self@.groups.len() - j2,
            {
                if self.groups[i2].0 == self.groups[j2].0 {
                    proof {
                        assert(!self@.wf()) by {
                            if self@.wf() {
                                assert(self@.groups[i2 as int].0 != self@.groups[j2 as int].0);
                            }
                        }
                    }
                    return false;
                }
                j2 = j2 + 1;
            }
            i2 = i2 + 1;
        }
        let active = self.profile_index(&self.active_profile);
        match active {
            Some(k) => {
                proof {
                    assert(self@.profile_names()[k as int] == self@.active_profile);
                }
                true
            },
            None => {
                proof {
                    if self@.profile_names().contains(self@.active_profile) {
                        let k = choose|k: int|
                            0 <= k < self@.profile_names().len() && self@.profile_names()[k]
                                == self@.active_profile;
                        assert(self@.profiles[k].0 == self@.active_profile);
                    }
                }
                false
            },
        }
    }

    /// The position of the profile named `name`, if any.
    pub fn profile_index(&self, name: &String) -> (r: Option<usize>)
        ensures
            match r {
                Some(i) => i < self@.profiles.len() && self@.profiles[i as int].0 == name@
                    && forall|j: int| 0 <= j < i ==> self@.profiles[j].0 != name@,
                None => forall|i: int|
                    0 <= i < self@.profiles.len() ==> self@.profiles[i].0 != name@,
            },
    {
        let mut i: usize = 0;
        while i < self.profiles.len()
            invariant
                i <= self@.profiles.len(),
                forall|j: int| 0 <= j < i ==> self@.profiles[j].0 != name@,
            decreases self@.profiles.len() - i,
        {
            if self.profiles[i].0 == *name {
                return Some(i);
            }
            i = i + 1;
        }
        None
    }

    /// The position of the group named `name`, if any.
    pub fn group_index(&self, name: &String) -> (r: Option<usize>)
        ensures
            match r {
                Some(i) => i < self@.groups.len() && self@.groups[i as int].0 == name@
                    && forall|j: int| 0 <= j < i ==> self@.groups[j].0 != name@,
                None => forall|i: int|
                    0 <= i < self@.groups.len() ==> self@.groups[i].0 != name@,
            },
    {
        let mut i: usize = 0;
        while i < self.groups.len()
            invariant
                i <= self@.groups.len(),
                forall|j: int| 0 <= j < i ==> self@.groups[j].0 != name@,
            decreases self@.groups.len() - i,
        {
            if self.groups[i].0 == *name {
                return Some(i);
            }
            i = i + 1;
        }
        None
    }

    /// Switch the active profile. Succeeds exactly when a profile of
    /// that name exists; on failure nothing changes, so well-formedness
    /// is never lost.
    pub fn set_active_profile(&mut self, name: &String) -> (r: bool)
        ensures
            r == old(self)@.profile_names().contains(name@),
            r ==> final(self)@ == (DataView { active_profile: name@, ..old(self)@ }),
            !r ==> final(self)@ == old(self)@,
            old(self)@.wf() ==> final(self)@.wf(),
    {
        let found = self.profile_index(name);
        match found {
            Some(i) => {
                proof {
                    assert(old(self)@.profile_names()[i as int] == name@);
                }
                self.active_profile = name.clone();
                proof {
                    assert(final(self)@ =~= (DataView { active_profile: name@, ..old(self)@ }));
                }
                true
            },
            None => {
                proof {
                    if old(self)@.profile_names().contains(name@) {
                        let i = choose|i: int|
                            0 <= i < old(self)@.profile_names().len()
                                && old(self)@.profile_names()[i] == name@;
                        assert(old(self)@.profiles[i].0 == name@);
                    }
                    assert(final(self)@ =~= old(self)@);
                }
                false
            },
        }
    }

    /// Add an empty profile under a fresh name. Fails, changing
    /// nothing, when the name is taken.
    pub fn add_profile(&mut self, name: String) -> (r: bool)
        ensures
            r == !old(self)@.profile_names().contains(name@),
            r ==> final(self)@ == (DataView {
                profiles: old(self)@.profiles.push((name@, Seq::<EntryView>::empty())),
                ..old(self)@
            }),
            !r ==> final(self)@ == old(self)@,
            old(self)@.wf() ==> final(self)@.wf(),
    {
        let found = self.profile_index(&name);
        match found {
            Some(i) => {
                proof {
                    assert(old(self)@.profile_names()[i as int] == name@);
                    assert(final(self)@ =~= old(self)@);
                }
                false
            },
            None => {
                proof {
                    if old(self)@.profile_names().contains(name@) {
                        let i = choose|i: int|
                            0 <= i < old(self)@.profile_names().len()
                                && old(self)@.profile_names()[i] == name@;
                        assert(old(self)@.profiles[i].0 == name@);
                    }
                }
                let ghost pre = self@;
                self.profiles.push((name, ModProfile::new()));
                proof {
                    assert(final(self)@.profiles =~= pre.profiles.push(
                        (name@, Seq::<EntryView>::empty()),
                    ));
                    assert(final(self)@ =~= (DataView {
                        profiles: pre.profiles.push((name@, Seq::<EntryView>::empty())),
                        ..pre
                    }));
                    if pre.wf() {
                        let post = final(self)@;
                        assert forall|i: int, j: int|
                            0 <= i < j < post.profiles.len() implies post.profiles[i].0
                            != post.profiles[j].0 by {
                            if j < pre.profiles.len() {
                            } else {
                                assert(pre.profile_names()[i] == pre.profiles[i].0);
                            }
                        }
                        assert(post.profile_names().contains(post.active_profile)) by {
                            let k = choose|k: int|
                                0 <= k < pre.profile_names().len() && pre.profile_names()[k]
                                    == pre.active_profile;
                            assert(post.profile_names()[k] == pre.active_profile);
                        }
                    }
                }
                true
            },
        }
    }

    /// Install a group under `name`, replacing any previous group of
    /// that name.
    pub fn set_group(&mut self, name: String, group: ModGroup)
        ensures
            final(self)@.profiles == old(self)@.profiles,
            final(self)@.active_profile == old(self)@.active_profile,
            final(self)@.group_names().contains(name@),
            old(self)@.group_names().contains(name@) ==> exists|i: int|
                0 <= i < old(self)@.groups.len() && old(self)@.groups[i].0 == name@
                    && final(self)@.groups == old(self)@.groups.update(i, (name@, group@)),
            !old(self)@.group_names().contains(name@) ==> final(self)@.groups == old(
                self,
            )@.groups.push((name@, group@)),
            old(self)@.wf() ==> final(self)@.wf(),
    {
        let found = self.group_index(&name);
        let ghost pre = self@;
        match found {
            Some(i) => {
                self.groups[i] = (name, group);
                proof {
                    assert(pre.group_names()[i as int] == pre.groups[i as int].0);
                    assert(final(self)@.groups =~= pre.groups.update(i as int, (name@, group@)));
                    assert(final(self)@.group_names()[i as int] == name@);
                    assert(final(self)@ =~= (DataView { groups: final(self)@.groups, ..pre }));
                    if pre.wf() {
                        assert(final(self)@.profile_names() =~= pre.profile_names());
                    }
                }
            },
            None => {
                proof {
                    if pre.group_names().contains(name@) {
                        let i = choose|i: int|
                            0 <= i < pre.group_names().len() && pre.group_names()[i] == name@;
                        assert(pre.groups[i].0 == name@);
                    }
                }
                self.groups.push((name, group));
                proof {
                    assert(final(self)@.groups =~= pre.groups.push((name@, group@)));
                    assert(final(self)@.group_names()[pre.groups.len() as int] == name@);
                    assert(final(self)@ =~= (DataView { groups: final(self)@.groups, ..pre }));
                    if pre.wf() {
                        let post = final(self)@;
                        assert forall|i: int, j: int|
                            0 <= i < j < post.groups.len() implies post.groups[i].0
                            != post.groups[j].0 by {
                            if j < pre.groups.len() {
                            } else {
                                assert(pre.group_names()[i] == pre.groups[i].0);
                            }
                        }
                        assert(post.profile_names() =~= pre.profile_names());
                    }
                }
            },
        }
    }
}

} // verus!
