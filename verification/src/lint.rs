//! The lint engine: a configurable battery of independent checks over
//! the extracted contents of mod archives.
//!
//! Each check is a pure function of the archive listings it is given;
//! the engine runs the enabled ones and merges their findings into one
//! sparse `LintReport`. A category is present in the report exactly
//! when its check was enabled and found something: absence means "no
//! findings", never an empty container.

use vstd::prelude::*;

use crate::model::ModSpecification;

verus! {

/// The expected pak container version; an older pak is flagged as
/// outdated.
pub const PAK_VERSION_LATEST: u32 = 11;

/// The check kinds, one per `LintOptions` switch.
#[derive(Clone, Copy, Debug, PartialEq, Eq, Structural)]
pub enum LintId {
    ArchiveWithMultiplePaks,
    ArchiveWithOnlyNonPakFiles,
    AssetRegistryBin,
    Conflicting,
    EmptyArchive,
    OutdatedPakVersion,
    ShaderFiles,
    NonAssetFiles,
    SplitAssetPairs,
    UnmodifiedGameAssets,
}

/// One file inside a pak: its path and a fingerprint of its contents
/// as the provider computed it.
#[derive(Clone, Debug, PartialEq, Eq)]
pub struct PakEntry {
    pub path: String,
    pub digest: u64,
}

impl View for PakEntry {
    type V = (Seq<char>, u64);

    open spec fn view(&self) -> (Seq<char>, u64) {
        (self.path@, self.digest)
    }
}

/// The view of a mounted pak.
#[verifier::ext_equal]
pub ghost struct PakView {
    pub version: u32,
    pub files: Seq<(Seq<char>, u64)>,
}

/// A mounted pak: its container version and its file listing.
#[derive(Clone, Debug, PartialEq, Eq)]
pub struct PakInfo {
    pub version: u32,
    pub files: Vec<PakEntry>,
}

impl View for PakInfo {
    type V = PakView;

    open spec fn view(&self) -> PakView {
        PakView { version: self.version, files: self.files@.map_values(|f: PakEntry| f@) }
    }
}

/// The view of one mod's extracted archive.
#[verifier::ext_equal]
pub ghost struct ArchiveView {
    pub entries: Seq<Seq<char>>,
    pub pak: Option<PakView>,
}

/// One mod's extracted archive: the names of the entries of the
/// downloaded archive, and the first contained pak, if one could be
/// mounted.
#[derive(Clone, Debug, PartialEq, Eq)]
pub struct ModArchive {
    pub entries: Vec<String>,
    pub pak: Option<PakInfo>,
}

impl View for ModArchive {
    type V = ArchiveView;

    open spec fn view(&self) -> ArchiveView {
        ArchiveView {
            entries: self.entries@.map_values(|e: String| e@),
            pak: match self.pak {
                Some(p) => Some(p@),
                None => None,
            },
        }
    }
}

/// The view of one mod handed to the engine.
#[verifier::ext_equal]
pub ghost struct TargetView {
    pub id: Seq<char>,
    pub archive: ArchiveView,
}

/// One mod handed to the engine: its identifier and its archive.
#[derive(Clone, Debug, PartialEq, Eq)]
pub struct LintTarget {
    pub spec: ModSpecification,
    pub archive: ModArchive,
}

impl View for LintTarget {
    type V = TargetView;

    open spec fn view(&self) -> TargetView {
        TargetView { id: self.spec@, archive: self.archive@ }
    }
}

/// The views of a batch of targets.
pub open spec fn target_views(s: Seq<LintTarget>) -> Seq<TargetView> {
    s.map_values(|t: LintTarget| t@)
}

/// Whether `suf` ends `s`.
pub open spec fn has_suffix(s: Seq<char>, suf: Seq<char>) -> bool {
    suf.len() <= s.len() && s.subrange(s.len() - suf.len(), s.len() as int) == suf
}

/// Whether the string ends with the given suffix.
pub fn str_has_suffix(s: &String, suffix: &str) -> (r: bool)
    ensures
        r == has_suffix(s@, suffix@),
{
    let sref = s.as_str();
    let n = sref.unicode_len();
    let m = suffix.unicode_len();
    if m > n {
        return false;
    }
    let base = n - m;
    let mut i: usize = 0;
    while i < m
        invariant
            i <= m,
            m <= n,
            base == n - m,
            n == sref@.len(),
            m == suffix@.len(),
            sref@ == s@,
            forall|j: int| 0 <= j < i ==> s@[base + j] == suffix@[j],
        decreases m - i,
    {
        if sref.get_char(base + i) != suffix.get_char(i) {
            proof {
                assert(s@.subrange(s@.len() - suffix@.len(), s@.len() as int)[i as int]
                    != suffix@[i as int]);
            }
            return false;
        }
        i = i + 1;
    }
    proof {
        assert(s@.subrange(s@.len() - suffix@.len(), s@.len() as int) =~= suffix@);
    }
    true
}

/// Whether a path names a pak.
pub open spec fn is_pak_path(p: Seq<char>) -> bool {
    has_suffix(p, ".pak"@)
}

/// How many entries of the listing name a pak.
pub open spec fn pak_count(entries: Seq<Seq<char>>) -> int
    decreases entries.len(),
{
    if entries.len() == 0 {
        0
    } else {
        pak_count(entries.drop_last()) + if is_pak_path(entries.last()) {
            1int
        } else {
            0int
        }
    }
}

proof fn lemma_pak_count_bounds(entries: Seq<Seq<char>>)
    ensures
        0 <= pak_count(entries) <= entries.len(),
    decreases entries.len(),
{
    if entries.len() > 0 {
        lemma_pak_count_bounds(entries.drop_last());
    }
}

fn count_pak_entries(entries: &Vec<String>) -> (r: usize)
    ensures
        r == pak_count(entries@.map_values(|e: String| e@)),
{
    let ghost views = entries@.map_values(|e: String| e@);
    let mut count: usize = 0;
    let mut i: usize = 0;
    proof {
        assert(views.take(0) =~= Seq::<Seq<char>>::empty());
    }
    while i < entries.len()
        invariant
            i <= entries@.len(),
            views == entries@.map_values(|e: String| e@),
            count == pak_count(views.take(i as int)),
        decreases entries@.len() - i,
    {
        proof {
            lemma_pak_count_bounds(views.take(i as int));
            assert(views.take(i as int).len() == i);
            assert(views.take(i as int + 1).drop_last() =~= views.take(i as int));
            assert(views.take(i as int + 1).last() == views[i as int]);
            assert(views[i as int] == entries@[i as int]@);
        }
        if str_has_suffix(&entries[i], ".pak") {
            count = count + 1;
        }
        i = i + 1;
    }
    proof {
        assert(views.take(views.len() as int) =~= views);
    }
    count
}

/// The three checks that judge a target by its archive listing alone.
#[derive(Clone, Copy, Debug, PartialEq, Eq, Structural)]
pub enum ArchiveRule {
    /// More than one pak: only the first found would be loaded.
    MultiplePaks,
    /// Entries, but no pak among them: likely packed wrong.
    OnlyNonPakFiles,
    /// No entries at all.
    EmptyArchive,
}

/// Whether the target's archive falls under the rule.
pub open spec fn archive_rule_matches(rule: ArchiveRule, av: ArchiveView) -> bool {
    match rule {
        ArchiveRule::MultiplePaks => pak_count(av.entries) >= 2,
        ArchiveRule::OnlyNonPakFiles => av.entries.len() > 0 && pak_count(av.entries) == 0,
        ArchiveRule::EmptyArchive => av.entries.len() == 0,
    }
}

/// The identifiers of the targets falling under the rule, in batch
/// order.
pub open spec fn archive_rule_ids(rule: ArchiveRule, b: Seq<TargetView>) -> Seq<Seq<char>>
    decreases b.len(),
{
    if b.len() == 0 {
        Seq::empty()
    } else {
        archive_rule_ids(rule, b.drop_last()) + if archive_rule_matches(rule, b.last().archive) {
            seq![b.last().id]
        } else {
            Seq::empty()
        }
    }
}

/// The views of a list of flagged identifiers.
pub open spec fn id_views(s: Seq<ModSpecification>) -> Seq<Seq<char>> {
    s.map_values(|m: ModSpecification| m@)
}

/// Run one of the archive-listing rules over the batch.
pub fn run_archive_rule(rule: ArchiveRule, batch: &Vec<LintTarget>) -> (r: Vec<ModSpecification>)
    ensures
        id_views(r@) == archive_rule_ids(rule, target_views(batch@)),
{
    let ghost b = target_views(batch@);
    let mut out: Vec<ModSpecification> = Vec::new();
    let mut i: usize = 0;
    proof {
        assert(b.take(0) =~= Seq::<TargetView>::empty());
        assert(id_views(out@) =~= archive_rule_ids(rule, b.take(0)));
    }
    while i < batch.len()
        invariant
            i <= batch@.len(),
            b == target_views(batch@),
            b.len() == batch@.len(),
            id_views(out@) == archive_rule_ids(rule, b.take(i as int)),
        decreases batch@.len() - i,
    {
        let ghost pre = id_views(out@);
        proof {
            assert(b[i as int] == batch@[i as int]@);
        }
        let entries = &batch[i].archive.entries;
        let hit = match rule {
            ArchiveRule::MultiplePaks => count_pak_entries(entries) >= 2,
            ArchiveRule::OnlyNonPakFiles => entries.len() > 0 && count_pak_entries(entries) == 0,
            ArchiveRule::EmptyArchive => entries.len() == 0,
        };
        if hit {
            out.push(batch[i].spec.duplicate());
            proof {
                assert(id_views(out@) =~= pre.push(b[i as int].id));
            }
        }
        proof {
            assert(b.take(i as int + 1).drop_last() =~= b.take(i as int));
            assert(b.take(i as int + 1).last() == b[i as int]);
            assert(id_views(out@) == archive_rule_ids(rule, b.take(i as int + 1)));
        }
        i = i + 1;
    }
    proof {
        assert(b.take(b.len() as int) =~= b);
    }
    out
}

/// Identifier-and-version views of outdated-pak findings.
pub open spec fn outdated_views(s: Seq<(ModSpecification, u32)>) -> Seq<(Seq<char>, u32)> {
    s.map_values(|p: (ModSpecification, u32)| (p.0@, p.1))
}

/// Run the outdated-pak-version check over the batch.
pub fn run_outdated(batch: &Vec<LintTarget>) -> (r: Vec<(ModSpecification, u32)>)
    ensures
        outdated_views(r@) == outdated_findings(target_views(batch@)),
{
    let ghost b = target_views(batch@);
    let mut out: Vec<(ModSpecification, u32)> = Vec::new();
    let mut i: usize = 0;
    proof {
        assert(b.take(0) =~= Seq::<TargetView>::empty());
        assert(outdated_views(out@) =~= outdated_findings(b.take(0)));
    }
    while i < batch.len()
        invariant
            i <= batch@.len(),
            b == target_views(batch@),
            b.len() == batch@.len(),
            outdated_views(out@) == outdated_findings(b.take(i as int)),
        decreases batch@.len() - i,
    {
        let ghost pre = outdated_views(out@);
        proof {
            assert(b[i as int] == batch@[i as int]@);
        }
        match &batch[i].archive.pak {
            Some(pak) => {
                if pak.version < PAK_VERSION_LATEST {
                    out.push((batch[i].spec.duplicate(), pak.version));
                    proof {
                        assert(outdated_views(out@) =~= pre.push((b[i as int].id, pak.version)));
                    }
                }
            },
            None => {},
        }
        proof {
            assert(b.take(i as int + 1).drop_last() =~= b.take(i as int));
            assert(b.take(i as int + 1).last() == b[i as int]);
            assert(outdated_views(out@) == outdated_findings(b.take(i as int + 1)));
        }
        i = i + 1;
    }
    proof {
        assert(b.take(b.len() as int) =~= b);
    }
    out
}

/// Identifier and pak version of the targets whose pak is older than
/// `PAK_VERSION_LATEST`.
pub open spec fn outdated_findings(b: Seq<TargetView>) -> Seq<(Seq<char>, u32)>
    decreases b.len(),
{
    if b.len() == 0 {
        Seq::empty()
    } else {
        outdated_findings(b.drop_last()) + match b.last().archive.pak {
            Some(p) => if p.version < PAK_VERSION_LATEST {
                seq![(b.last().id, p.version)]
            } else {
                Seq::empty()
            },
            None => Seq::empty(),
        }
    }
}

/// The paths inside a target's pak, in listing order; no pak, no
/// paths.
pub open spec fn pak_paths(av: ArchiveView) -> Seq<Seq<char>> {
    match av.pak {
        Some(p) => p.files.map_values(|f: (Seq<char>, u64)| f.0),
        None => Seq::empty(),
    }
}

/// Whether a path names a game asset a pak is expected to carry.
pub open spec fn is_asset_path(p: Seq<char>) -> bool {
    ||| has_suffix(p, ".uasset"@)
    ||| has_suffix(p, ".uexp"@)
    ||| has_suffix(p, ".ubulk"@)
    ||| has_suffix(p, ".ufont"@)
    ||| has_suffix(p, ".locres"@)
}

/// The three checks that single out pak files by their path alone.
#[derive(Clone, Copy, Debug, PartialEq, Eq, Structural)]
pub enum PathRule {
    /// A packaged `AssetRegistry.bin` serves no purpose in a mod.
    AssetRegistryBin,
    /// Shader bytecode files tend to break on game updates.
    ShaderFile,
    /// Anything that is not a known asset kind.
    NonAssetFile,
}

/// Whether a pak file path falls under the rule.
pub open spec fn rule_matches(rule: PathRule, p: Seq<char>) -> bool {
    match rule {
        PathRule::AssetRegistryBin => has_suffix(p, "AssetRegistry.bin"@),
        PathRule::ShaderFile => has_suffix(p, ".ushaderbytecode"@),
        PathRule::NonAssetFile => !is_asset_path(p),
    }
}

/// The paths of the listing that fall under the rule, in order.
pub open spec fn matching_paths(rule: PathRule, paths: Seq<Seq<char>>) -> Seq<Seq<char>>
    decreases paths.len(),
{
    if paths.len() == 0 {
        Seq::empty()
    } else {
        matching_paths(rule, paths.drop_last()) + if rule_matches(rule, paths.last()) {
            seq![paths.last()]
        } else {
            Seq::empty()
        }
    }
}

/// Per target with at least one path under the rule: its identifier
/// and those paths.
pub open spec fn path_rule_findings(rule: PathRule, b: Seq<TargetView>) -> Seq<
    (Seq<char>, Seq<Seq<char>>),
>
    decreases b.len(),
{
    if b.len() == 0 {
        Seq::empty()
    } else {
        path_rule_findings(rule, b.drop_last()) + {
            let inner = matching_paths(rule, pak_paths(b.last().archive));
            if inner.len() > 0 {
                seq![(b.last().id, inner)]
            } else {
                Seq::empty()
            }
        }
    }
}

/// The views of per-target path findings.
pub open spec fn path_finding_views(s: Seq<(ModSpecification, Vec<String>)>) -> Seq<
    (Seq<char>, Seq<Seq<char>>),
> {
    s.map_values(|p: (ModSpecification, Vec<String>)| (p.0@, p.1@.map_values(|x: String| x@)))
}

fn path_matches(rule: PathRule, p: &String) -> (r: bool)
    ensures
        r == rule_matches(rule, p@),
{
    match rule {
        PathRule::AssetRegistryBin => str_has_suffix(p, "AssetRegistry.bin"),
        PathRule::ShaderFile => str_has_suffix(p, ".ushaderbytecode"),
        PathRule::NonAssetFile => {
            let a = str_has_suffix(p, ".uasset");
            let b = str_has_suffix(p, ".uexp");
            let c = str_has_suffix(p, ".ubulk");
            let d = str_has_suffix(p, ".ufont");
            let e = str_has_suffix(p, ".locres");
            !(a || b || c || d || e)
        },
    }
}

fn collect_matching_paths(rule: PathRule, archive: &ModArchive) -> (r: Vec<String>)
    ensures
        r@.map_values(|x: String| x@) == matching_paths(rule, pak_paths(archive@)),
{
    let ghost paths = pak_paths(archive@);
    let mut out: Vec<String> = Vec::new();
    match &archive.pak {
        None => {
            proof {
                assert(out@.map_values(|x: String| x@) =~= matching_paths(rule, paths));
            }
        },
        Some(pak) => {
            proof {
                assert(paths.len() == pak.files@.len());
            }
            let mut j: usize = 0;
            proof {
                assert(paths.take(0) =~= Seq::<Seq<char>>::empty());
                assert(out@.map_values(|x: String| x@) =~= matching_paths(rule, paths.take(0)));
            }
            while j < pak.files.len()
                invariant
                    j <= pak.files@.len(),
                    paths == pak_paths(archive@),
                    paths == pak.files@.map_values(|f: PakEntry| f@).map_values(
                        |f: (Seq<char>, u64)| f.0,
                    ),
                    paths.len() == pak.files@.len(),
                    out@.map_values(|x: String| x@) == matching_paths(rule, paths.take(j as int)),
                decreases pak.files@.len() - j,
            {
                let ghost pre = out@.map_values(|x: String| x@);
                proof {
                    assert(paths[j as int] == pak.files@[j as int].path@);
                }
                if path_matches(rule, &pak.files[j].path) {
                    out.push(pak.files[j].path.clone());
                    proof {
                        assert(out@.map_values(|x: String| x@) =~= pre.push(paths[j as int]));
                    }
                }
                proof {
                    assert(paths.take(j as int + 1).drop_last() =~= paths.take(j as int));
                    assert(paths.take(j as int + 1).last() == paths[j as int]);
                    assert(out@.map_values(|x: String| x@) == matching_paths(
                        rule,
                        paths.take(j as int + 1),
                    ));
                }
                j = j + 1;
            }
            proof {
                assert(paths.take(paths.len() as int) =~= paths);
            }
        },
    }
    out
}

/// Run one of the path rules over the batch.
pub fn run_path_rule(rule: PathRule, batch: &Vec<LintTarget>) -> (r: Vec<
    (ModSpecification, Vec<String>),
>)
    ensures
        path_finding_views(r@) == path_rule_findings(rule, target_views(batch@)),
{
    let ghost b = target_views(batch@);
    let mut out: Vec<(ModSpecification, Vec<String>)> = Vec::new();
    let mut i: usize = 0;
    proof {
        assert(b.take(0) =~= Seq::<TargetView>::empty());
        assert(path_finding_views(out@) =~= path_rule_findings(rule, b.take(0)));
    }
    while i < batch.len()
        invariant
            i <= batch@.len(),
            b == target_views(batch@),
            b.len() == batch@.len(),
            path_finding_views(out@) == path_rule_findings(rule, b.take(i as int)),
        decreases batch@.len() - i,
    {
        let ghost pre = path_finding_views(out@);
        proof {
            assert(b[i as int] == batch@[i as int]@);
        }
        let inner = collect_matching_paths(rule, &batch[i].archive);
        if inner.len() > 0 {
            let ghost iview = inner@.map_values(|x: String| x@);
            out.push((batch[i].spec.duplicate(), inner));
            proof {
                assert(path_finding_views(out@) =~= pre.push((b[i as int].id, iview)));
            }
        }
        proof {
            assert(b.take(i as int + 1).drop_last() =~= b.take(i as int));
            assert(b.take(i as int + 1).last() == b[i as int]);
            assert(path_finding_views(out@) == path_rule_findings(rule, b.take(i as int + 1)));
        }
        i = i + 1;
    }
    proof {
        assert(b.take(b.len() as int) =~= b);
    }
    out
}

/// Which half of a split {uexp, uasset} pair is missing.
#[derive(Clone, Copy, Debug, PartialEq, Eq, Structural)]
pub enum SplitAssetPair {
    MissingUasset,
    MissingUexp,
}

/// The path without its suffix.
pub open spec fn path_stem(p: Seq<char>, suf: Seq<char>) -> Seq<char> {
    p.subrange(0, p.len() - suf.len())
}

/// Whether the listing holds the mate of `p`: the same stem with the
/// other suffix.
pub open spec fn mate_exists(
    all: Seq<Seq<char>>,
    p: Seq<char>,
    suf: Seq<char>,
    other: Seq<char>,
) -> bool {
    all.contains(path_stem(p, suf) + other)
}

/// The split-pair defects among `prefix`, each path paired with the
/// half it lacks; mates are sought in the whole listing `all`.
pub open spec fn split_pairs(all: Seq<Seq<char>>, prefix: Seq<Seq<char>>) -> Seq<
    (Seq<char>, SplitAssetPair),
>
    decreases prefix.len(),
{
    if prefix.len() == 0 {
        Seq::empty()
    } else {
        split_pairs(all, prefix.drop_last()) + {
            let p = prefix.last();
            if has_suffix(p, ".uexp"@) && !mate_exists(all, p, ".uexp"@, ".uasset"@) {
                seq![(p, SplitAssetPair::MissingUasset)]
            } else if has_suffix(p, ".uasset"@) && !mate_exists(all, p, ".uasset"@, ".uexp"@) {
                seq![(p, SplitAssetPair::MissingUexp)]
            } else {
                Seq::empty()
            }
        }
    }
}

/// Per target with split pairs: its identifier and the defects.
pub open spec fn split_findings(b: Seq<TargetView>) -> Seq<
    (Seq<char>, Seq<(Seq<char>, SplitAssetPair)>),
>
    decreases b.len(),
{
    if b.len() == 0 {
        Seq::empty()
    } else {
        split_findings(b.drop_last()) + {
            let paths = pak_paths(b.last().archive);
            let inner = split_pairs(paths, paths);
            if inner.len() > 0 {
                seq![(b.last().id, inner)]
            } else {
                Seq::empty()
            }
        }
    }
}

/// The views of per-target split-pair findings.
pub open spec fn split_finding_views(s: Seq<(ModSpecification, Vec<(String, SplitAssetPair)>)>) -> Seq<
    (Seq<char>, Seq<(Seq<char>, SplitAssetPair)>),
> {
    s.map_values(
        |p: (ModSpecification, Vec<(String, SplitAssetPair)>)|
            (p.0@, p.1@.map_values(|x: (String, SplitAssetPair)| (x.0@, x.1))),
    )
}

proof fn lemma_uexp_not_uasset(p: Seq<char>)
    requires
        has_suffix(p, ".uexp"@),
    ensures
        !has_suffix(p, ".uasset"@),
{
    reveal_strlit(".uexp");
    reveal_strlit(".uasset");
    assert(p.subrange(p.len() - 5, p.len() as int)[4] == p[p.len() - 1]);
    if has_suffix(p, ".uasset"@) {
        assert(p.subrange(p.len() - 7, p.len() as int)[6] == p[p.len() - 1]);
    }
}

/// Whether the pak lists a file under exactly this path.
fn pak_has_path(pak: &PakInfo, q: &String) -> (r: bool)
    ensures
        r == pak@.files.map_values(|f: (Seq<char>, u64)| f.0).contains(q@),
{
    let ghost paths = pak@.files.map_values(|f: (Seq<char>, u64)| f.0);
    let mut k: usize = 0;
    proof {
        assert(paths.len() == pak.files@.len());
    }
    while k < pak.files.len()
        invariant
            k <= pak.files@.len(),
            paths == pak@.files.map_values(|f: (Seq<char>, u64)| f.0),
            paths.len() == pak.files@.len(),
            forall|j: int| 0 <= j < k ==> paths[j] != q@,
        decreases pak.files@.len() - k,
    {
        proof {
            assert(paths[k as int] == pak.files@[k as int].path@);
        }
        if pak.files[k].path == *q {
            return true;
        }
        k = k + 1;
    }
    false
}

fn collect_split_pairs(archive: &ModArchive) -> (r: Vec<(String, SplitAssetPair)>)
    ensures
        r@.map_values(|x: (String, SplitAssetPair)| (x.0@, x.1)) == split_pairs(
            pak_paths(archive@),
            pak_paths(archive@),
        ),
{
    let ghost paths = pak_paths(archive@);
    let mut out: Vec<(String, SplitAssetPair)> = Vec::new();
    match &archive.pak {
        None => {
            proof {
                assert(out@.map_values(|x: (String, SplitAssetPair)| (x.0@, x.1)) =~= split_pairs(
                    paths,
                    paths,
                ));
            }
        },
        Some(pak) => {
            proof {
                assert(paths.len() == pak.files@.len());
            }
            let mut j: usize = 0;
            proof {
                assert(paths.take(0) =~= Seq::<Seq<char>>::empty());
                assert(out@.map_values(|x: (String, SplitAssetPair)| (x.0@, x.1)) =~= split_pairs(
                    paths,
                    paths.take(0),
                ));
            }
            while j < pak.files.len()
                invariant
                    j <= pak.files@.len(),
                    paths == pak_paths(archive@),
                    archive.pak == Some(*pak),
                    paths.len() == pak.files@.len(),
                    out@.map_values(|x: (String, SplitAssetPair)| (x.0@, x.1)) == split_pairs(
                        paths,
                        paths.take(j as int),
                    ),
                decreases pak.files@.len() - j,
            {
                let ghost pre = out@.map_values(|x: (String, SplitAssetPair)| (x.0@, x.1));
                proof {
                    assert(paths[j as int] == pak.files@[j as int].path@);
                }
                let p = &pak.files[j].path;
                let n = p.as_str().unicode_len();
                if str_has_suffix(p, ".uexp") {
                    proof {
                        reveal_strlit(".uexp");
                        lemma_uexp_not_uasset(p@);
                    }
                    let stem = p.as_str().substring_char(0, n - 5);
                    let mate = String::from_str(stem).concat(".uasset");
                    proof {
                        assert(mate@ =~= path_stem(p@, ".uexp"@) + ".uasset"@);
                    }
                    if !pak_has_path(pak, &mate) {
                        out.push((p.clone(), SplitAssetPair::MissingUasset));
                        proof {
                            assert(out@.map_values(|x: (String, SplitAssetPair)| (x.0@, x.1))
                                =~= pre.push((paths[j as int], SplitAssetPair::MissingUasset)));
                        }
                    }
                } else if str_has_suffix(p, ".uasset") {
                    proof {
                        reveal_strlit(".uasset");
                    }
                    let stem = p.as_str().substring_char(0, n - 7);
                    let mate = String::from_str(stem).concat(".uexp");
                    proof {
                        assert(mate@ =~= path_stem(p@, ".uasset"@) + ".uexp"@);
                    }
                    if !pak_has_path(pak, &mate) {
                        out.push((p.clone(), SplitAssetPair::MissingUexp));
                        proof {
                            assert(out@.map_values(|x: (String, SplitAssetPair)| (x.0@, x.1))
                                =~= pre.push((paths[j as int], SplitAssetPair::MissingUexp)));
                        }
                    }
                }
                proof {
                    assert(paths.take(j as int + 1).drop_last() =~= paths.take(j as int));
                    assert(paths.take(j as int + 1).last() == paths[j as int]);
                    assert(out@.map_values(|x: (String, SplitAssetPair)| (x.0@, x.1)) == split_pairs(
                        paths,
                        paths.take(j as int + 1),
                    ));
                }
                j = j + 1;
            }
            proof {
                assert(paths.take(paths.len() as int) =~= paths);
            }
        },
    }
    out
}

/// Run the split-pair check over the batch.
pub fn run_split_pairs(batch: &Vec<LintTarget>) -> (r: Vec<
    (ModSpecification, Vec<(String, SplitAssetPair)>),
>)
    ensures
        split_finding_views(r@) == split_findings(target_views(batch@)),
{
    let ghost b = target_views(batch@);
    let mut out: Vec<(ModSpecification, Vec<(String, SplitAssetPair)>)> = Vec::new();
    let mut i: usize = 0;
    proof {
        assert(b.take(0) =~= Seq::<TargetView>::empty());
        assert(split_finding_views(out@) =~= split_findings(b.take(0)));
    }
    while i < batch.len()
        invariant
            i <= batch@.len(),
            b == target_views(batch@),
            b.len() == batch@.len(),
            split_finding_views(out@) == split_findings(b.take(i as int)),
        decreases batch@.len() - i,
    {
        let ghost pre = split_finding_views(out@);
        proof {
            assert(b[i as int] == batch@[i as int]@);
        }
        let inner = collect_split_pairs(&batch[i].archive);
        if inner.len() > 0 {
            let ghost iview = inner@.map_values(|x: (String, SplitAssetPair)| (x.0@, x.1));
            out.push((batch[i].spec.duplicate(), inner));
            proof {
                assert(split_finding_views(out@) =~= pre.push((b[i as int].id, iview)));
            }
        }
        proof {
            assert(b.take(i as int + 1).drop_last() =~= b.take(i as int));
            assert(b.take(i as int + 1).last() == b[i as int]);
            assert(split_finding_views(out@) == split_findings(b.take(i as int + 1)));
        }
        i = i + 1;
    }
    proof {
        assert(b.take(b.len() as int) =~= b);
    }
    out
}

/// The paths of `files` whose path and fingerprint both already occur
/// in the reference listing: shipped, but identical to the game's own
/// copy.
pub open spec fn unmodified_paths(
    reference: Seq<(Seq<char>, u64)>,
    files: Seq<(Seq<char>, u64)>,
) -> Seq<Seq<char>>
    decreases files.len(),
{
    if files.len() == 0 {
        Seq::empty()
    } else {
        unmodified_paths(reference, files.drop_last()) + if reference.contains(files.last()) {
            seq![files.last().0]
        } else {
            Seq::empty()
        }
    }
}

/// Per target shipping unmodified game files: its identifier and those
/// paths.
pub open spec fn unmodified_findings(
    reference: Seq<(Seq<char>, u64)>,
    b: Seq<TargetView>,
) -> Seq<(Seq<char>, Seq<Seq<char>>)>
    decreases b.len(),
{
    if b.len() == 0 {
        Seq::empty()
    } else {
        unmodified_findings(reference, b.drop_last()) + {
            let inner = match b.last().archive.pak {
                Some(p) => unmodified_paths(reference, p.files),
                None => Seq::empty(),
            };
            if inner.len() > 0 {
                seq![(b.last().id, inner)]
            } else {
                Seq::empty()
            }
        }
    }
}

/// The views of a reference listing.
pub open spec fn reference_views(s: Seq<PakEntry>) -> Seq<(Seq<char>, u64)> {
    s.map_values(|f: PakEntry| f@)
}

fn reference_has(reference: &Vec<PakEntry>, f: &PakEntry) -> (r: bool)
    ensures
        r == reference_views(reference@).contains(f@),
{
    let ghost views = reference_views(reference@);
    let mut k: usize = 0;
    while k < reference.len()
        invariant
            k <= reference@.len(),
            views == reference_views(reference@),
            forall|j: int| 0 <= j < k ==> views[j] != f@,
        decreases reference@.len() - k,
    {
        proof {
            assert(views[k as int] == reference@[k as int]@);
        }
        if reference[k].path == f.path && reference[k].digest == f.digest {
            return true;
        }
        k = k + 1;
    }
    false
}

fn collect_unmodified(reference: &Vec<PakEntry>, archive: &ModArchive) -> (r: Vec<String>)
    ensures
        r@.map_values(|x: String| x@) == match archive@.pak {
            Some(p) => unmodified_paths(reference_views(reference@), p.files),
            None => Seq::<Seq<char>>::empty(),
        },
{
    let ghost rviews = reference_views(reference@);
    let mut out: Vec<String> = Vec::new();
    match &archive.pak {
        None => {
            proof {
                assert(out@.map_values(|x: String| x@) =~= Seq::<Seq<char>>::empty());
            }
        },
        Some(pak) => {
            let ghost files = pak@.files;
            proof {
                assert(files.len() == pak.files@.len());
            }
            let mut j: usize = 0;
            proof {
                assert(files.take(0) =~= Seq::<(Seq<char>, u64)>::empty());
                assert(out@.map_values(|x: String| x@) =~= unmodified_paths(
                    rviews,
                    files.take(0),
                ));
            }
            while j < pak.files.len()
                invariant
                    j <= pak.files@.len(),
                    rviews == reference_views(reference@),
                    files == pak@.files,
                    archive.pak == Some(*pak),
                    files.len() == pak.files@.len(),
                    out@.map_values(|x: String| x@) == unmodified_paths(rviews, files.take(j as int)),
                decreases pak.files@.len() - j,
            {
                let ghost pre = out@.map_values(|x: String| x@);
                proof {
                    assert(files[j as int] == pak.files@[j as int]@);
                }
                if reference_has(reference, &pak.files[j]) {
                    out.push(pak.files[j].path.clone());
                    proof {
                        assert(out@.map_values(|x: String| x@) =~= pre.push(files[j as int].0));
                    }
                }
                proof {
                    assert(files.take(j as int + 1).drop_last() =~= files.take(j as int));
                    assert(files.take(j as int + 1).last() == files[j as int]);
                    assert(out@.map_values(|x: String| x@) == unmodified_paths(
                        rviews,
                        files.take(j as int + 1),
                    ));
                }
                j = j + 1;
            }
            proof {
                assert(files.take(files.len() as int) =~= files);
            }
        },
    }
    out
}

/// Run the unmodified-game-assets check over the batch against the
/// reference listing of the game's own pak.
pub fn run_unmodified(reference: &Vec<PakEntry>, batch: &Vec<LintTarget>) -> (r: Vec<
    (ModSpecification, Vec<String>),
>)
    ensures
        path_finding_views(r@) == unmodified_findings(
            reference_views(reference@),
            target_views(batch@),
        ),
{
    let ghost rviews = reference_views(reference@);
    let ghost b = target_views(batch@);
    let mut out: Vec<(ModSpecification, Vec<String>)> = Vec::new();
    let mut i: usize = 0;
    proof {
        assert(b.take(0) =~= Seq::<TargetView>::empty());
        assert(path_finding_views(out@) =~= unmodified_findings(rviews, b.take(0)));
    }
    while i < batch.len()
        invariant
            i <= batch@.len(),
            rviews == reference_views(reference@),
            b == target_views(batch@),
            b.len() == batch@.len(),
            path_finding_views(out@) == unmodified_findings(rviews, b.take(i as int)),
        decreases batch@.len() - i,
    {
        let ghost pre = path_finding_views(out@);
        proof {
            assert(b[i as int] == batch@[i as int]@);
        }
        let inner = collect_unmodified(reference, &batch[i].archive);
        if inner.len() > 0 {
            let ghost iview = inner@.map_values(|x: String| x@);
            out.push((batch[i].spec.duplicate(), inner));
            proof {
                assert(path_finding_views(out@) =~= pre.push((b[i as int].id, iview)));
            }
        }
        proof {
            assert(b.take(i as int + 1).drop_last() =~= b.take(i as int));
            assert(b.take(i as int + 1).last() == b[i as int]);
            assert(path_finding_views(out@) == unmodified_findings(rviews, b.take(i as int + 1)));
        }
        i = i + 1;
    }
    proof {
        assert(b.take(b.len() as int) =~= b);
    }
    out
}

/// Whether a target's pak carries a file under this path.
pub open spec fn target_has_path(t: TargetView, p: Seq<char>) -> bool {
    pak_paths(t.archive).contains(p)
}

/// The identifiers of the targets carrying `p`, in batch order.
pub open spec fn mods_with_path(b: Seq<TargetView>, p: Seq<char>) -> Seq<Seq<char>>
    decreases b.len(),
{
    if b.len() == 0 {
        Seq::empty()
    } else {
        mods_with_path(b.drop_last(), p) + if target_has_path(b.last(), p) {
            seq![b.last().id]
        } else {
            Seq::empty()
        }
    }
}

/// Every pak path of the batch, in batch order.
pub open spec fn all_paths(b: Seq<TargetView>) -> Seq<Seq<char>>
    decreases b.len(),
{
    if b.len() == 0 {
        Seq::empty()
    } else {
        all_paths(b.drop_last()) + pak_paths(b.last().archive)
    }
}

/// The sequence with later repetitions dropped: each path once, in
/// order of first appearance.
pub open spec fn distinct_paths(ps: Seq<Seq<char>>) -> Seq<Seq<char>>
    decreases ps.len(),
{
    if ps.len() == 0 {
        Seq::empty()
    } else {
        let rest = distinct_paths(ps.drop_last());
        if rest.contains(ps.last()) {
            rest
        } else {
            rest.push(ps.last())
        }
    }
}

/// Among `paths`, those carried by two or more targets, each with the
/// carriers' identifiers.
pub open spec fn conflict_findings_from(b: Seq<TargetView>, paths: Seq<Seq<char>>) -> Seq<
    (Seq<char>, Seq<Seq<char>>),
>
    decreases paths.len(),
{
    if paths.len() == 0 {
        Seq::empty()
    } else {
        conflict_findings_from(b, paths.drop_last()) + {
            let mods = mods_with_path(b, paths.last());
            if mods.len() >= 2 {
                seq![(paths.last(), mods)]
            } else {
                Seq::empty()
            }
        }
    }
}

/// The conflicting-modification findings of a batch: every path that
/// more than one target modifies, in order of first appearance, with
/// the modifying targets in batch order.
pub open spec fn conflict_findings(b: Seq<TargetView>) -> Seq<(Seq<char>, Seq<Seq<char>>)> {
    conflict_findings_from(b, distinct_paths(all_paths(b)))
}

/// The views of conflicting-modification findings.
pub open spec fn conflict_views(s: Seq<(String, Vec<ModSpecification>)>) -> Seq<
    (Seq<char>, Seq<Seq<char>>),
> {
    s.map_values(
        |x: (String, Vec<ModSpecification>)|
            (x.0@, x.1@.map_values(|m: ModSpecification| m@)),
    )
}

fn archive_has_path(archive: &ModArchive, q: &String) -> (r: bool)
    ensures
        r == pak_paths(archive@).contains(q@),
{
    match &archive.pak {
        None => {
            proof {
                assert(!pak_paths(archive@).contains(q@));
            }
            false
        },
        Some(pak) => pak_has_path(pak, q),
    }
}

fn contains_string(v: &Vec<String>, q: &String) -> (r: bool)
    ensures
        r == v@.map_values(|x: String| x@).contains(q@),
{
    let ghost views = v@.map_values(|x: String| x@);
    let mut k: usize = 0;
    while k < v.len()
        invariant
            k <= v@.len(),
            views == v@.map_values(|x: String| x@),
            forall|j: int| 0 <= j < k ==> views[j] != q@,
        decreases v@.len() - k,
    {
        proof {
            assert(views[k as int] == v@[k as int]@);
        }
        if v[k] == *q {
            return true;
        }
        k = k + 1;
    }
    false
}

/// Run the conflicting-modification check over the batch.
pub fn run_conflicting(batch: &Vec<LintTarget>) -> (r: Vec<(String, Vec<ModSpecification>)>)
    ensures
        conflict_views(r@) == conflict_findings(target_views(batch@)),
{
    let ghost b = target_views(batch@);
    // First pass: every pak path, in order of first appearance.
    let mut all: Vec<String> = Vec::new();
    let mut i: usize = 0;
    proof {
        assert(b.take(0) =~= Seq::<TargetView>::empty());
        assert(all@.map_values(|x: String| x@) =~= distinct_paths(all_paths(b.take(0))));
    }
    while i < batch.len()
        invariant
            i <= batch@.len(),
            b == target_views(batch@),
            b.len() == batch@.len(),
            all@.map_values(|x: String| x@) == distinct_paths(all_paths(b.take(i as int))),
        decreases batch@.len() - i,
    {
        proof {
            assert(b[i as int] == batch@[i as int]@);
        }
        let ghost base = all_paths(b.take(i as int));
        match &batch[i].archive.pak {
            None => {
                proof {
                    assert(pak_paths(b[i as int].archive) =~= Seq::<Seq<char>>::empty());
                    assert(b.take(i as int + 1).drop_last() =~= b.take(i as int));
                    assert(b.take(i as int + 1).last() == b[i as int]);
                    assert(all_paths(b.take(i as int + 1)) =~= base);
                }
            },
            Some(pak) => {
                let ghost paths = pak_paths(b[i as int].archive);
                proof {
                    assert(paths.len() == pak.files@.len());
                }
                let mut j: usize = 0;
                proof {
                    assert(base + paths.take(0) =~= base);
                }
                while j < pak.files.len()
                    invariant
                        j <= pak.files@.len(),
                        b == target_views(batch@),
                        b.len() == batch@.len(),
                        i < batch@.len(),
                        base == all_paths(b.take(i as int)),
                        paths == pak_paths(b[i as int].archive),
                        batch@[i as int].archive.pak == Some(*pak),
                        b[i as int] == batch@[i as int]@,
                        paths.len() == pak.files@.len(),
                        all@.map_values(|x: String| x@) == distinct_paths(
                            base + paths.take(j as int),
                        ),
                    decreases pak.files@.len() - j,
                {
                    let ghost pre = all@.map_values(|x: String| x@);
                    proof {
                        assert(paths[j as int] == pak.files@[j as int].path@);
                    }
                    let p = &pak.files[j].path;
                    let seen = contains_string(&all, p);
                    if !seen {
                        all.push(p.clone());
                        proof {
                            assert(all@.map_values(|x: String| x@) =~= pre.push(paths[j as int]));
                        }
                    }
                    proof {
                        assert(base + paths.take(j as int + 1) =~= (base + paths.take(
                            j as int,
                        )).push(paths[j as int]));
                        assert((base + paths.take(j as int)).push(paths[j as int]).drop_last()
                            =~= base + paths.take(j as int));
                        assert(all@.map_values(|x: String| x@) == distinct_paths(
                            base + paths.take(j as int + 1),
                        ));
                    }
                    j = j + 1;
                }
                proof {
                    assert(paths.take(paths.len() as int) =~= paths);
                    assert(b.take(i as int + 1).drop_last() =~= b.take(i as int));
                    assert(b.take(i as int + 1).last() == b[i as int]);
                    assert(all_paths(b.take(i as int + 1)) == base + paths);
                }
            },
        }
        i = i + 1;
    }
    proof {
        assert(b.take(b.len() as int) =~= b);
    }
    let ghost dviews = distinct_paths(all_paths(b));
    // Second pass: keep the paths carried by two or more targets.
    let mut out: Vec<(String, Vec<ModSpecification>)> = Vec::new();
    let mut k: usize = 0;
    proof {
        assert(dviews.take(0) =~= Seq::<Seq<char>>::empty());
        assert(conflict_views(out@) =~= conflict_findings_from(b, dviews.take(0)));
        assert(all@.map_values(|x: String| x@).len() == all@.len());
    }
    while k < all.len()
        invariant
            k <= all@.len(),
            b == target_views(batch@),
            b.len() == batch@.len(),
            dviews == distinct_paths(all_paths(b)),
            all@.map_values(|x: String| x@) == dviews,
            dviews.len() == all@.len(),
            conflict_views(out@) == conflict_findings_from(b, dviews.take(k as int)),
        decreases all@.len() - k,
    {
        let ghost pre = conflict_views(out@);
        proof {
            assert(dviews[k as int] == all@[k as int]@);
        }
        let p = &all[k];
        let mut mods: Vec<ModSpecification> = Vec::new();
        let mut i2: usize = 0;
        proof {
            assert(b.take(0) =~= Seq::<TargetView>::empty());
            assert(mods@.map_values(|m: ModSpecification| m@) =~= mods_with_path(b.take(0), p@));
        }
        while i2 < batch.len()
            invariant
                i2 <= batch@.len(),
                b == target_views(batch@),
                b.len() == batch@.len(),
                p@ == dviews[k as int],
                k < all@.len(),
                dviews.len() == all@.len(),
                mods@.map_values(|m: ModSpecification| m@) == mods_with_path(b.take(i2 as int), p@),
            decreases batch@.len() - i2,
        {
            let ghost mpre = mods@.map_values(|m: ModSpecification| m@);
            proof {
                assert(b[i2 as int] == batch@[i2 as int]@);
            }
            if archive_has_path(&batch[i2].archive, p) {
                mods.push(batch[i2].spec.duplicate());
                proof {
                    assert(mods@.map_values(|m: ModSpecification| m@) =~= mpre.push(
                        b[i2 as int].id,
                    ));
                }
            }
            proof {
                assert(b.take(i2 as int + 1).drop_last() =~= b.take(i2 as int));
                assert(b.take(i2 as int + 1).last() == b[i2 as int]);
                assert(mods@.map_values(|m: ModSpecification| m@) == mods_with_path(
                    b.take(i2 as int + 1),
                    p@,
                ));
            }
            i2 = i2 + 1;
        }
        proof {
            assert(b.take(b.len() as int) =~= b);
        }
        if mods.len() >= 2 {
            let ghost mview = mods@.map_values(|m: ModSpecification| m@);
            out.push((p.clone(), mods));
            proof {
                assert(conflict_views(out@) =~= pre.push((dviews[k as int], mview)));
            }
        }
        proof {
            assert(dviews.take(k as int + 1).drop_last() =~= dviews.take(k as int));
            assert(dviews.take(k as int + 1).last() == dviews[k as int]);
            assert(conflict_views(out@) == conflict_findings_from(b, dviews.take(k as int + 1)));
        }
        k = k + 1;
    }
    proof {
        assert(dviews.take(dviews.len() as int) =~= dviews);
    }
    out
}

fn push_if(out: &mut Vec<LintId>, flag: bool, id: LintId)
    ensures
        final(out)@ == old(out)@ + if flag {
            seq![id]
        } else {
            Seq::<LintId>::empty()
        },
{
    if flag {
        out.push(id);
        proof {
            assert(out@ =~= old(out)@ + seq![id]);
        }
    } else {
        proof {
            assert(out@ =~= old(out)@ + Seq::<LintId>::empty());
        }
    }
}

/// One independently toggleable switch per check kind.
#[derive(Clone, Copy, Debug, PartialEq, Eq, Structural)]
pub struct LintOptions {
    pub archive_with_multiple_paks: bool,
    pub archive_with_only_non_pak_files: bool,
    pub asset_register_bin: bool,
    pub conflicting: bool,
    pub empty_archive: bool,
    pub outdated_pak_version: bool,
    pub shader_files: bool,
    pub non_asset_files: bool,
    pub split_asset_pairs: bool,
    pub unmodified_game_assets: bool,
}

impl LintOptions {
    /// No check enabled.
    pub open spec fn none_enabled(self) -> bool {
        !self.archive_with_multiple_paks && !self.archive_with_only_non_pak_files
            && !self.asset_register_bin && !self.conflicting && !self.empty_archive
            && !self.outdated_pak_version && !self.shader_files && !self.non_asset_files
            && !self.split_asset_pairs && !self.unmodified_game_assets
    }

    /// The enabled check kinds, in the fixed kind order.
    pub open spec fn enabled_seq(self) -> Seq<LintId> {
        (if self.archive_with_multiple_paks {
            seq![LintId::ArchiveWithMultiplePaks]
        } else {
            Seq::empty()
        }) + (if self.archive_with_only_non_pak_files {
            seq![LintId::ArchiveWithOnlyNonPakFiles]
        } else {
            Seq::empty()
        }) + (if self.asset_register_bin {
            seq![LintId::AssetRegistryBin]
        } else {
            Seq::empty()
        }) + (if self.conflicting {
            seq![LintId::Conflicting]
        } else {
            Seq::empty()
        }) + (if self.empty_archive {
            seq![LintId::EmptyArchive]
        } else {
            Seq::empty()
        }) + (if self.outdated_pak_version {
            seq![LintId::OutdatedPakVersion]
        } else {
            Seq::empty()
        }) + (if self.shader_files {
            seq![LintId::ShaderFiles]
        } else {
            Seq::empty()
        }) + (if self.non_asset_files {
            seq![LintId::NonAssetFiles]
        } else {
            Seq::empty()
        }) + (if self.split_asset_pairs {
            seq![LintId::SplitAssetPairs]
        } else {
            Seq::empty()
        }) + (if self.unmodified_game_assets {
            seq![LintId::UnmodifiedGameAssets]
        } else {
            Seq::empty()
        })
    }

    /// The enabled check kinds as a list, as an operation request
    /// carries them.
    pub fn enabled_lints(&self) -> (r: Vec<LintId>)
        ensures
            r@ == self.enabled_seq(),
    {
        let mut out: Vec<LintId> = Vec::new();
        push_if(&mut out, self.archive_with_multiple_paks, LintId::ArchiveWithMultiplePaks);
        push_if(
            &mut out,
            self.archive_with_only_non_pak_files,
            LintId::ArchiveWithOnlyNonPakFiles,
        );
        push_if(&mut out, self.asset_register_bin, LintId::AssetRegistryBin);
        push_if(&mut out, self.conflicting, LintId::Conflicting);
        push_if(&mut out, self.empty_archive, LintId::EmptyArchive);
        push_if(&mut out, self.outdated_pak_version, LintId::OutdatedPakVersion);
        push_if(&mut out, self.shader_files, LintId::ShaderFiles);
        push_if(&mut out, self.non_asset_files, LintId::NonAssetFiles);
        push_if(&mut out, self.split_asset_pairs, LintId::SplitAssetPairs);
        push_if(&mut out, self.unmodified_game_assets, LintId::UnmodifiedGameAssets);
        proof {
            assert(out@ =~= self.enabled_seq());
        }
        out
    }
}

impl Default for LintOptions {
    /// Every check starts disabled.
    fn default() -> (r: LintOptions)
        ensures
            r.none_enabled(),
    {
        LintOptions {
            archive_with_multiple_paks: false,
            archive_with_only_non_pak_files: false,
            asset_register_bin: false,
            conflicting: false,
            empty_archive: false,
            outdated_pak_version: false,
            shader_files: false,
            non_asset_files: false,
            split_asset_pairs: false,
            unmodified_game_assets: false,
        }
    }
}

/// One sparse report: a category holds findings exactly when its check
/// was enabled and found something; otherwise it is absent, never an
/// empty container.
#[derive(Clone, Debug, PartialEq, Eq)]
pub struct LintReport {
    pub archive_with_multiple_paks_mods: Option<Vec<ModSpecification>>,
    pub archive_with_only_non_pak_files_mods: Option<Vec<ModSpecification>>,
    pub asset_register_bin_mods: Option<Vec<(ModSpecification, Vec<String>)>>,
    pub conflicting_mods: Option<Vec<(String, Vec<ModSpecification>)>>,
    pub empty_archive_mods: Option<Vec<ModSpecification>>,
    pub outdated_pak_version_mods: Option<Vec<(ModSpecification, u32)>>,
    pub shader_file_mods: Option<Vec<(ModSpecification, Vec<String>)>>,
    pub non_asset_file_mods: Option<Vec<(ModSpecification, Vec<String>)>>,
    pub split_asset_pairs_mods: Option<Vec<(ModSpecification, Vec<(String, SplitAssetPair)>)>>,
    pub unmodified_game_assets_mods: Option<Vec<(ModSpecification, Vec<String>)>>,
}

impl LintReport {
    /// Every category absent.
    pub open spec fn all_absent(self) -> bool {
        &&& self.archive_with_multiple_paks_mods is None
        &&& self.archive_with_only_non_pak_files_mods is None
        &&& self.asset_register_bin_mods is None
        &&& self.conflicting_mods is None
        &&& self.empty_archive_mods is None
        &&& self.outdated_pak_version_mods is None
        &&& self.shader_file_mods is None
        &&& self.non_asset_file_mods is None
        &&& self.split_asset_pairs_mods is None
        &&& self.unmodified_game_assets_mods is None
    }
}

/// A category of flagged identifiers is present exactly when the check
/// was enabled and flagged something, and then it holds `want`.
pub open spec fn category_ids(o: Option<Vec<ModSpecification>>, enabled: bool, want: Seq<Seq<char>>) -> bool {
    match o {
        Some(v) => enabled && want.len() > 0 && id_views(v@) == want,
        None => !enabled || want.len() == 0,
    }
}

/// The same for per-target path findings.
pub open spec fn category_paths(
    o: Option<Vec<(ModSpecification, Vec<String>)>>,
    enabled: bool,
    want: Seq<(Seq<char>, Seq<Seq<char>>)>,
) -> bool {
    match o {
        Some(v) => enabled && want.len() > 0 && path_finding_views(v@) == want,
        None => !enabled || want.len() == 0,
    }
}

/// Run the enabled checks over the batch and merge their findings.
///
/// The unmodified-game-assets check needs the game's own pak listing;
/// without one it cannot run, whatever its switch says.
fn ids_category(rule: ArchiveRule, enabled: bool, batch: &Vec<LintTarget>) -> (r: Option<
    Vec<ModSpecification>,
>)
    ensures
        category_ids(r, enabled, archive_rule_ids(rule, target_views(batch@))),
{
    if enabled {
        let v = run_archive_rule(rule, batch);
        if v.len() > 0 {
            Some(v)
        } else {
            None
        }
    } else {
        None
    }
}

fn paths_category(rule: PathRule, enabled: bool, batch: &Vec<LintTarget>) -> (r: Option<
    Vec<(ModSpecification, Vec<String>)>,
>)
    ensures
        category_paths(r, enabled, path_rule_findings(rule, target_views(batch@))),
{
    if enabled {
        let v = run_path_rule(rule, batch);
        if v.len() > 0 {
            Some(v)
        } else {
            None
        }
    } else {
        None
    }
}

fn outdated_category(enabled: bool, batch: &Vec<LintTarget>) -> (r: Option<
    Vec<(ModSpecification, u32)>,
>)
    ensures
        match r {
            Some(v) => enabled && outdated_findings(target_views(batch@)).len() > 0
                && outdated_views(v@) == outdated_findings(target_views(batch@)),
            None => !enabled || outdated_findings(target_views(batch@)).len() == 0,
        },
{
    if enabled {
        let v = run_outdated(batch);
        if v.len() > 0 {
            Some(v)
        } else {
            None
        }
    } else {
        None
    }
}

fn split_category(enabled: bool, batch: &Vec<LintTarget>) -> (r: Option<
    Vec<(ModSpecification, Vec<(String, SplitAssetPair)>)>,
>)
    ensures
        match r {
            Some(v) => enabled && split_findings(target_views(batch@)).len() > 0
                && split_finding_views(v@) == split_findings(target_views(batch@)),
            None => !enabled || split_findings(target_views(batch@)).len() == 0,
        },
{
    if enabled {
        let v = run_split_pairs(batch);
        if v.len() > 0 {
            Some(v)
        } else {
            None
        }
    } else {
        None
    }
}

fn conflicting_category(enabled: bool, batch: &Vec<LintTarget>) -> (r: Option<
    Vec<(String, Vec<ModSpecification>)>,
>)
    ensures
        match r {
            Some(v) => enabled && conflict_findings(target_views(batch@)).len() > 0
                && conflict_views(v@) == conflict_findings(target_views(batch@)),
            None => !enabled || conflict_findings(target_views(batch@)).len() == 0,
        },
{
    if enabled {
        let v = run_conflicting(batch);
        if v.len() > 0 {
            Some(v)
        } else {
            None
        }
    } else {
        None
    }
}

fn unmodified_category(
    enabled: bool,
    batch: &Vec<LintTarget>,
    reference: Option<&Vec<PakEntry>>,
) -> (r: Option<Vec<(ModSpecification, Vec<String>)>>)
    ensures
        match (r, reference) {
            (Some(v), Some(rf)) => enabled && unmodified_findings(
                reference_views(rf@),
                target_views(batch@),
            ).len() > 0 && path_finding_views(v@) == unmodified_findings(
                reference_views(rf@),
                target_views(batch@),
            ),
            (None, Some(rf)) => !enabled || unmodified_findings(
                reference_views(rf@),
                target_views(batch@),
            ).len() == 0,
            (Some(_), None) => false,
            (None, None) => true,
        },
{
    match reference {
        Some(rf) => if enabled {
            let v = run_unmodified(rf, batch);
            if v.len() > 0 {
                Some(v)
            } else {
                None
            }
        } else {
            None
        },
        None => None,
    }
}

pub fn run_lints(
    batch: &Vec<LintTarget>,
    options: &LintOptions,
    reference: Option<&Vec<PakEntry>>,
) -> (r: LintReport)
    ensures
        category_ids(
            r.archive_with_multiple_paks_mods,
            options.archive_with_multiple_paks,
            archive_rule_ids(ArchiveRule::MultiplePaks, target_views(batch@)),
        ),
        category_ids(
            r.archive_with_only_non_pak_files_mods,
            options.archive_with_only_non_pak_files,
            archive_rule_ids(ArchiveRule::OnlyNonPakFiles, target_views(batch@)),
        ),
        category_ids(
            r.empty_archive_mods,
            options.empty_archive,
            archive_rule_ids(ArchiveRule::EmptyArchive, target_views(batch@)),
        ),
        category_paths(
            r.asset_register_bin_mods,
            options.asset_register_bin,
            path_rule_findings(PathRule::AssetRegistryBin, target_views(batch@)),
        ),
        category_paths(
            r.shader_file_mods,
            options.shader_files,
            path_rule_findings(PathRule::ShaderFile, target_views(batch@)),
        ),
        category_paths(
            r.non_asset_file_mods,
            options.non_asset_files,
            path_rule_findings(PathRule::NonAssetFile, target_views(batch@)),
        ),
        match r.outdated_pak_version_mods {
            Some(v) => options.outdated_pak_version && outdated_findings(
                target_views(batch@),
            ).len() > 0 && outdated_views(v@) == outdated_findings(target_views(batch@)),
            None => !options.outdated_pak_version || outdated_findings(
                target_views(batch@),
            ).len() == 0,
        },
        match r.split_asset_pairs_mods {
            Some(v) => options.split_asset_pairs && split_findings(target_views(batch@)).len() > 0
                && split_finding_views(v@) == split_findings(target_views(batch@)),
            None => !options.split_asset_pairs || split_findings(target_views(batch@)).len() == 0,
        },
        match r.conflicting_mods {
            Some(v) => options.conflicting && conflict_findings(target_views(batch@)).len() > 0
                && conflict_views(v@) == conflict_findings(target_views(batch@)),
            None => !options.conflicting || conflict_findings(target_views(batch@)).len() == 0,
        },
        match (r.unmodified_game_assets_mods, reference) {
            (Some(v), Some(rf)) => options.unmodified_game_assets && unmodified_findings(
                reference_views(rf@),
                target_views(batch@),
            ).len() > 0 && path_finding_views(v@) == unmodified_findings(
                reference_views(rf@),
                target_views(batch@),
            ),
            (None, Some(rf)) => !options.unmodified_game_assets || unmodified_findings(
                reference_views(rf@),
                target_views(batch@),
            ).len() == 0,
            (Some(_), None) => false,
            (None, None) => true,
        },
        options.none_enabled() ==> r.all_absent(),
{
    let archive_with_multiple_paks_mods = ids_category(
        ArchiveRule::MultiplePaks,
        options.archive_with_multiple_paks,
        batch,
    );
    let archive_with_only_non_pak_files_mods = ids_category(
        ArchiveRule::OnlyNonPakFiles,
        options.archive_with_only_non_pak_files,
        batch,
    );
    let empty_archive_mods = ids_category(ArchiveRule::EmptyArchive, options.empty_archive, batch);
    let asset_register_bin_mods = paths_category(
        PathRule::AssetRegistryBin,
        options.asset_register_bin,
        batch,
    );
    let shader_file_mods = paths_category(PathRule::ShaderFile, options.shader_files, batch);
    let non_asset_file_mods = paths_category(PathRule::NonAssetFile, options.non_asset_files, batch);
    let outdated_pak_version_mods = outdated_category(options.outdated_pak_version, batch);
    let split_asset_pairs_mods = split_category(options.split_asset_pairs, batch);
    let conflicting_mods = conflicting_category(options.conflicting, batch);
    let unmodified_game_assets_mods = unmodified_category(
        options.unmodified_game_assets,
        batch,
        reference,
    );
    LintReport {
        archive_with_multiple_paks_mods,
        archive_with_only_non_pak_files_mods,
        asset_register_bin_mods,
        conflicting_mods,
        empty_archive_mods,
        outdated_pak_version_mods,
        shader_file_mods,
        non_asset_file_mods,
        split_asset_pairs_mods,
        unmodified_game_assets_mods,
    }
}

} // verus!
