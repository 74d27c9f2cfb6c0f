//! Dependency graph and lockfile. Transitive required dependencies are
//! walked; incompatible edges between selected projects and mismatched
//! version requests are reported as conflicts. Pins (given, or set on a
//! root) always win over "latest" and over versions dependencies ask for.
use vstd::prelude::*;
use crate::error::{AppError, AppResult};
use crate::text::{append, append_str, cat, chars_of, copy_opt, lit, oview, str_eq, string_of};

verus! {

// ===========================================================================
// Lockfile
// ===========================================================================

/// One file recorded in an instance's lockfile.
pub struct LockfileEntry {
    pub path: String,
    pub sha1: Option<String>,
    pub sha512: Option<String>,
    pub source: String,
    pub project_id: Option<String>,
    pub version_id: Option<String>,
    pub filename: Option<String>,
    pub pinned: bool,
    pub enabled: bool,
}

impl LockfileEntry {
    /// The entry records a file of project `pid`.
    pub open spec fn belongs_to(&self, pid: Seq<char>) -> bool {
        oview(self.project_id) == Some(pid)
    }

    /// A copy of this entry.
    pub fn duplicate(&self) -> (r: LockfileEntry)
        ensures
            r == *self,
    {
        LockfileEntry {
            path: self.path.clone(),
            sha1: copy_opt(&self.sha1),
            sha512: copy_opt(&self.sha512),
            source: self.source.clone(),
            project_id: copy_opt(&self.project_id),
            version_id: copy_opt(&self.version_id),
            filename: copy_opt(&self.filename),
            pinned: self.pinned,
            enabled: self.enabled,
        }
    }
}

impl Default for LockfileEntry {
    /// An entry with empty path and source, no hashes or ids, unpinned and enabled.
    fn default() -> (e: Self)
        ensures
            e.path@ == Seq::<char>::empty(),
            e.sha1 is None,
            e.sha512 is None,
            e.source@ == Seq::<char>::empty(),
            e.project_id is None,
            e.version_id is None,
            e.filename is None,
            !e.pinned,
            e.enabled,
    {
        LockfileEntry {
            path: String::new(),
            sha1: None,
            sha512: None,
            source: String::new(),
            project_id: None,
            version_id: None,
            filename: None,
            pinned: false,
            enabled: default_true(),
        }
    }
}

/// The value a missing `enabled` flag takes: entries are enabled by default.
pub fn default_true() -> (b: bool)
    ensures
        b,
{
    true
}

/// The lockfile of one instance (`aureum.lock.json`).
pub struct Lockfile {
    pub version: u32,
    pub instance_id: String,
    pub files: Vec<LockfileEntry>,
}

/// `files` without the entries of project `pid`, in their order.
pub open spec fn without_project(files: Seq<LockfileEntry>, pid: Seq<char>) -> Seq<LockfileEntry> {
    files.filter(|f: LockfileEntry| !f.belongs_to(pid))
}

/// `files` after recording `entry`: an entry with a project id replaces every
/// entry of that project; the new entry comes last.
pub open spec fn upserted(files: Seq<LockfileEntry>, entry: LockfileEntry) -> Seq<LockfileEntry> {
    match oview(entry.project_id) {
        Some(pid) => without_project(files, pid).push(entry),
        None => files.push(entry),
    }
}

fn retain_other_projects(files: &Vec<LockfileEntry>, pid: &str) -> (r: Vec<LockfileEntry>)
    ensures
        r@ == without_project(files@, pid@),
{
    let mut out: Vec<LockfileEntry> = Vec::new();
    let mut i: usize = 0;
    while i < files.len()
        invariant
            i <= files.len(),
            out@ == without_project(files@.take(i as int), pid@),
        decreases files.len() - i,
    {
        let f = &files[i];
        let same = match &f.project_id {
            Some(p) => str_eq(p.as_str(), pid),
            None => false,
        };
        proof {
            reveal_with_fuel(Seq::filter, 1);
            assert(files@.take(i + 1).drop_last() == files@.take(i as int));
        }
        if !same {
            out.push(f.duplicate());
        }
        i += 1;
    }
    assert(files@.take(files.len() as int) == files@);
    out
}

impl Lockfile {
    /// A fresh lockfile (format version 1) for `instance_id`, with no files.
    pub fn empty(instance_id: &str) -> (l: Lockfile)
        ensures
            l.version == 1,
            l.instance_id@ == instance_id@,
            l.files@.len() == 0,
    {
        Lockfile { version: 1, instance_id: instance_id.to_string(), files: Vec::new() }
    }

    /// Records `entry`, replacing the entries of its project when it has one.
    pub fn upsert_mod(&mut self, entry: LockfileEntry)
        ensures
            final(self).files@ == upserted(old(self).files@, entry),
            final(self).version == old(self).version,
            final(self).instance_id == old(self).instance_id,
    {
        match &entry.project_id {
            Some(pid) => {
                let kept = retain_other_projects(&self.files, pid.as_str());
                self.files = kept;
            },
            None => {},
        }
        self.files.push(entry);
    }

    /// Drops every entry of project `project_id`.
    pub fn remove_project(&mut self, project_id: &str)
        ensures
            final(self).files@ == without_project(old(self).files@, project_id@),
            final(self).version == old(self).version,
            final(self).instance_id == old(self).instance_id,
    {
        let kept = retain_other_projects(&self.files, project_id);
        self.files = kept;
    }

    /// Sets the pinned flag of every entry of project `project_id`.
    pub fn set_pinned(&mut self, project_id: &str, pinned: bool)
        ensures
            final(self).version == old(self).version,
            final(self).instance_id == old(self).instance_id,
            final(self).files.len() == old(self).files.len(),
            forall|i: int|
                0 <= i < old(self).files.len() ==> #[trigger] final(self).files@[i] == if old(
                    self,
                ).files@[i].belongs_to(project_id@) {
                    LockfileEntry { pinned, ..old(self).files@[i] }
                } else {
                    old(self).files@[i]
                },
    {
        let ghost before = self.files@;
        let mut i: usize = 0;
        while i < self.files.len()
            invariant
                i <= self.files.len(),
                self.files.len() == before.len(),
                self.version == old(self).version,
                self.instance_id == old(self).instance_id,
                before == old(self).files@,
                forall|k: int|
                    0 <= k < before.len() ==> #[trigger] self.files@[k] == if k < i && before[k].belongs_to(
                        project_id@,
                    ) {
                        LockfileEntry { pinned, ..before[k] }
                    } else {
                        before[k]
                    },
            decreases self.files.len() - i,
        {
            let hit = match &self.files[i].project_id {
                Some(p) => str_eq(p.as_str(), project_id),
                None => false,
            };
            if hit {
                let mut e = self.files.remove(i);
                e.pinned = pinned;
                self.files.insert(i, e);
            }
            i += 1;
        }
    }

    /// Sets the enabled flag of every entry of project `project_id`.
    pub fn set_enabled(&mut self, project_id: &str, enabled: bool)
        ensures
            final(self).version == old(self).version,
            final(self).instance_id == old(self).instance_id,
            final(self).files.len() == old(self).files.len(),
            forall|i: int|
                0 <= i < old(self).files.len() ==> #[trigger] final(self).files@[i] == if old(
                    self,
                ).files@[i].belongs_to(project_id@) {
                    LockfileEntry { enabled, ..old(self).files@[i] }
                } else {
                    old(self).files@[i]
                },
    {
        let ghost before = self.files@;
        let mut i: usize = 0;
        while i < self.files.len()
            invariant
                i <= self.files.len(),
                self.files.len() == before.len(),
                self.version == old(self).version,
                self.instance_id == old(self).instance_id,
                before == old(self).files@,
                forall|k: int|
                    0 <= k < before.len() ==> #[trigger] self.files@[k] == if k < i && before[k].belongs_to(
                        project_id@,
                    ) {
                        LockfileEntry { enabled, ..before[k] }
                    } else {
                        before[k]
                    },
            decreases self.files.len() - i,
        {
            let hit = match &self.files[i].project_id {
                Some(p) => str_eq(p.as_str(), project_id),
                None => false,
            };
            if hit {
                let mut e = self.files.remove(i);
                e.enabled = enabled;
                self.files.insert(i, e);
            }
            i += 1;
        }
    }
}

/// `{game_dir}/aureum.lock.json`, where an instance's lockfile lives.
pub fn lock_path(game_dir: &str) -> (r: String)
    ensures
        r@ == crate::paths::join(game_dir@, "aureum.lock.json"@),
{
    string_of(&crate::paths::path_join_str(&chars_of(game_dir), "aureum.lock.json"))
}

/// The hash of a lockfile: the hex SHA-256 of its compact JSON text.
pub fn lock_hash(json: &[u8]) -> (r: String)
    ensures
        r@ == crate::digest::hex_of(crate::digest::sha256_of(json@)),
{
    let d = crate::digest::sha256_digest(json);
    crate::digest::hex_encode(d.as_slice())
}

// ---------------------------------------------------------------------------
// Laws of the lockfile
// ---------------------------------------------------------------------------

proof fn lemma_without_project_members(files: Seq<LockfileEntry>, pid: Seq<char>, q: Seq<char>)
    ensures
        pid != q ==> without_project(files, pid).filter(|f: LockfileEntry| f.belongs_to(q))
            == files.filter(|f: LockfileEntry| f.belongs_to(q)),
        without_project(files, pid).filter(|f: LockfileEntry| f.belongs_to(pid)) == Seq::<
            LockfileEntry,
        >::empty(),
    decreases files.len(),
{
    reveal_with_fuel(Seq::filter, 1);
    if files.len() > 0 {
        let d = files.drop_last();
        let x = files.last();
        lemma_without_project_members(d, pid, q);
        let w = without_project(d, pid);
        if x.belongs_to(pid) {
            assert(without_project(files, pid) == w);
        } else {
            assert(without_project(files, pid) == w.push(x));
            assert(w.push(x).drop_last() == w);
            assert(w.push(x).last() == x);
        }
    }
}

/// After an entry of project `pid` is recorded, the lockfile holds exactly
/// one entry of `pid`, the new one; the entries of every other project are
/// those held before, in the same order.
pub proof fn law_upsert_replaces(files: Seq<LockfileEntry>, entry: LockfileEntry, pid: Seq<char>, q: Seq<char>)
    requires
        entry.belongs_to(pid),
        q != pid,
    ensures
        upserted(files, entry).filter(|f: LockfileEntry| f.belongs_to(pid)) == seq![entry],
        upserted(files, entry).filter(|f: LockfileEntry| f.belongs_to(q)) == files.filter(
            |f: LockfileEntry| f.belongs_to(q),
        ),
{
    reveal_with_fuel(Seq::filter, 1);
    lemma_without_project_members(files, pid, q);
    let w = without_project(files, pid);
    assert(upserted(files, entry) == w.push(entry));
    assert(w.push(entry).drop_last() == w);
}

/// Recording the same entry twice leaves the lockfile as recording it once.
pub proof fn law_upsert_idempotent(files: Seq<LockfileEntry>, entry: LockfileEntry)
    requires
        entry.project_id is Some,
    ensures
        upserted(upserted(files, entry), entry) == upserted(files, entry),
{
    reveal_with_fuel(Seq::filter, 1);
    let pid = entry.project_id->0@;
    let w = without_project(files, pid);
    lemma_filter_idempotent(files, pid);
    assert(w.push(entry).drop_last() == w);
}

proof fn lemma_filter_idempotent(files: Seq<LockfileEntry>, pid: Seq<char>)
    ensures
        without_project(without_project(files, pid), pid) == without_project(files, pid),
    decreases files.len(),
{
    reveal_with_fuel(Seq::filter, 1);
    if files.len() > 0 {
        lemma_filter_idempotent(files.drop_last(), pid);
        let w = without_project(files.drop_last(), pid);
        if !files.last().belongs_to(pid) {
            assert(w.push(files.last()).drop_last() == w);
        }
    }
}

/// Removing a project after recording one of its entries leaves the same
/// lockfile as removing it without the recording.
pub proof fn law_remove_after_upsert(files: Seq<LockfileEntry>, entry: LockfileEntry, pid: Seq<char>)
    requires
        entry.belongs_to(pid),
    ensures
        without_project(upserted(files, entry), pid) == without_project(files, pid),
{
    reveal_with_fuel(Seq::filter, 1);
    let w = without_project(files, pid);
    lemma_filter_idempotent(files, pid);
    assert(w.push(entry).drop_last() == w);
}


// ===========================================================================
// Dependency model
// ===========================================================================

/// How a package depends on another project.
#[derive(Clone, Copy, PartialEq, Eq, Structural, Debug)]
pub enum DepKind {
    Required,
    Optional,
    Incompatible,
    Embedded,
}

impl DepKind {
    /// The kind a catalog `dependency_type` names; anything unknown is required.
    pub open spec fn parse_spec(raw: Seq<char>) -> DepKind {
        if raw == "optional"@ {
            DepKind::Optional
        } else if raw == "incompatible"@ {
            DepKind::Incompatible
        } else if raw == "embedded"@ {
            DepKind::Embedded
        } else {
            DepKind::Required
        }
    }

    pub fn parse(raw: &str) -> (k: DepKind)
        ensures
            k == DepKind::parse_spec(raw@),
    {
        if str_eq(raw, "optional") {
            DepKind::Optional
        } else if str_eq(raw, "incompatible") {
            DepKind::Incompatible
        } else if str_eq(raw, "embedded") {
            DepKind::Embedded
        } else {
            DepKind::Required
        }
    }
}

/// An edge from a package to another project.
pub struct DepRef {
    pub project_id: String,
    pub version_id: Option<String>,
    pub kind: DepKind,
}

/// One version of one project, with its outgoing edges.
pub struct Package {
    pub project_id: String,
    pub version_id: String,
    pub name: String,
    pub deps: Vec<DepRef>,
}

/// A project the user asked for, possibly at a given version.
pub struct Selection {
    pub project_id: String,
    pub version_id: Option<String>,
    pub pin: bool,
}

/// A problem found while resolving.
pub struct Conflict {
    pub project_id: String,
    pub left: String,
    pub right: String,
    pub reason: String,
}

/// The outcome of a resolution: the chosen version of each project, in the
/// order projects were selected, and the conflicts found.
pub struct ResolveResult {
    pub instance_id: String,
    pub selected: Vec<(String, String)>,
    pub conflicts: Vec<Conflict>,
}

pub ghost struct DepV {
    pub pid: Seq<char>,
    pub vid: Option<Seq<char>>,
    pub kind: DepKind,
}

pub ghost struct PackageV {
    pub pid: Seq<char>,
    pub vid: Seq<char>,
    pub deps: Seq<DepV>,
}

pub ghost struct SelectionV {
    pub pid: Seq<char>,
    pub vid: Option<Seq<char>>,
    pub pin: bool,
}

pub ghost struct ConflictV {
    pub pid: Seq<char>,
    pub left: Seq<char>,
    pub right: Seq<char>,
    pub reason: Seq<char>,
}

impl View for DepRef {
    type V = DepV;

    open spec fn view(&self) -> DepV {
        DepV { pid: self.project_id@, vid: oview(self.version_id), kind: self.kind }
    }
}

impl View for Package {
    type V = PackageV;

    open spec fn view(&self) -> PackageV {
        PackageV {
            pid: self.project_id@,
            vid: self.version_id@,
            deps: self.deps@.map_values(|d: DepRef| d@),
        }
    }
}

impl View for Selection {
    type V = SelectionV;

    open spec fn view(&self) -> SelectionV {
        SelectionV { pid: self.project_id@, vid: oview(self.version_id), pin: self.pin }
    }
}

impl View for Conflict {
    type V = ConflictV;

    open spec fn view(&self) -> ConflictV {
        ConflictV {
            pid: self.project_id@,
            left: self.left@,
            right: self.right@,
            reason: self.reason@,
        }
    }
}

/// An association list from project ids to version ids.
pub type Assoc = Seq<(Seq<char>, Seq<char>)>;

pub open spec fn pairs_view(v: Seq<(String, String)>) -> Assoc {
    v.map_values(|p: (String, String)| (p.0@, p.1@))
}

pub open spec fn conflicts_view(v: Seq<Conflict>) -> Seq<ConflictV> {
    v.map_values(|c: Conflict| c@)
}

/// The position of the first element of `s` satisfying `p`, or `s.len()`.
pub open spec fn first_index<A>(s: Seq<A>, p: spec_fn(A) -> bool) -> nat
    decreases s.len(),
{
    if s.len() == 0 {
        0
    } else if p(s[0]) {
        0
    } else {
        1 + first_index(s.drop_first(), p)
    }
}

pub proof fn lemma_first_index<A>(s: Seq<A>, p: spec_fn(A) -> bool)
    ensures
        first_index(s, p) <= s.len(),
        forall|j: int| 0 <= j < first_index(s, p) ==> !p(#[trigger] s[j]),
        first_index(s, p) < s.len() ==> p(s[first_index(s, p) as int]),
    decreases s.len(),
{
    if s.len() > 0 && !p(s[0]) {
        lemma_first_index(s.drop_first(), p);
        assert forall|j: int| 0 <= j < first_index(s, p) implies !p(#[trigger] s[j]) by {
            if j > 0 {
                assert(s[j] == s.drop_first()[j - 1]);
            }
        }
    }
}

/// The first index is the only index with its defining property.
pub proof fn lemma_first_index_unique<A>(s: Seq<A>, p: spec_fn(A) -> bool, i: int)
    requires
        0 <= i <= s.len(),
        forall|j: int| 0 <= j < i ==> !p(#[trigger] s[j]),
        i < s.len() ==> p(s[i]),
    ensures
        first_index(s, p) == i,
{
    lemma_first_index(s, p);
    let f = first_index(s, p) as int;
    if f < i {
        assert(!p(s[f]));
    } else if i < f {
        assert(!p(s[i]));
    }
}

pub open spec fn key_is(k: Seq<char>) -> spec_fn((Seq<char>, Seq<char>)) -> bool {
    |e: (Seq<char>, Seq<char>)| e.0 == k
}

/// The value of the first entry of `m` with key `k`.
pub open spec fn lookup(m: Assoc, k: Seq<char>) -> Option<Seq<char>> {
    let i = first_index(m, key_is(k));
    if i < m.len() {
        Some(m[i as int].1)
    } else {
        None
    }
}

/// `m` with the value of key `k` set to `v` (in place when present, appended otherwise).
pub open spec fn assoc_set(m: Assoc, k: Seq<char>, v: Seq<char>) -> Assoc {
    let i = first_index(m, key_is(k));
    if i < m.len() {
        m.update(i as int, (k, v))
    } else {
        m.push((k, v))
    }
}

pub proof fn lemma_lookup_none(m: Assoc, k: Seq<char>)
    ensures
        lookup(m, k) is None <==> forall|j: int| 0 <= j < m.len() ==> (#[trigger] m[j]).0 != k,
        lookup(m, k) is Some <==> exists|j: int| 0 <= j < m.len() && (#[trigger] m[j]).0 == k,
{
    lemma_first_index(m, key_is(k));
    let i = first_index(m, key_is(k)) as int;
    if i < m.len() {
        assert(m[i].0 == k);
    }
}

// ===========================================================================
// The resolver as a state machine
// ===========================================================================

/// What the resolver reads: the requested roots, the known packages (looked
/// up by project and version), the latest version of each project and the
/// pinned versions.
pub ghost struct RCtx {
    pub roots: Seq<SelectionV>,
    pub packages: Seq<PackageV>,
    pub latest: Assoc,
    pub pins: Assoc,
}

/// The resolver's working state: projects selected so far (with their
/// versions), the work queue with the position of its next entry, and the
/// preferred version of each project.
pub ghost struct RState {
    pub selected: Assoc,
    pub queue: Seq<Seq<char>>,
    pub head: int,
    pub preferred: Assoc,
}

/// Why a resolution fails.
pub ghost enum RError {
    /// No pin, preference or latest version is known for the project.
    NoVersion(Seq<char>),
    /// The chosen version of the project has no package metadata.
    MissingPackage(Seq<char>, Seq<char>),
}

pub open spec fn error_text(e: RError) -> Seq<char> {
    match e {
        RError::NoVersion(pid) => "No version available for project "@ + pid,
        RError::MissingPackage(pid, vid) => "Missing package metadata for "@ + pid + "@"@ + vid,
    }
}

pub open spec fn is_package(pid: Seq<char>, vid: Seq<char>) -> spec_fn(PackageV) -> bool {
    |p: PackageV| p.pid == pid && p.vid == vid
}

/// Position of the first package of `pid` at version `vid`.
pub open spec fn pkg_index(pkgs: Seq<PackageV>, pid: Seq<char>, vid: Seq<char>) -> nat {
    first_index(pkgs, is_package(pid, vid))
}

pub open spec fn has_package(ctx: RCtx, pid: Seq<char>, vid: Seq<char>) -> bool {
    pkg_index(ctx.packages, pid, vid) < ctx.packages.len()
}

pub open spec fn package_of(ctx: RCtx, pid: Seq<char>, vid: Seq<char>) -> PackageV {
    ctx.packages[pkg_index(ctx.packages, pid, vid) as int]
}

/// Some root asks for project `pid`.
pub open spec fn is_root(ctx: RCtx, pid: Seq<char>) -> bool {
    exists|i: int| 0 <= i < ctx.roots.len() && (#[trigger] ctx.roots[i]).pid == pid
}

/// The preferred versions the roots set up: each root with a version prefers it.
pub open spec fn root_preferences(roots: Seq<SelectionV>) -> Assoc
    decreases roots.len(),
{
    if roots.len() == 0 {
        Seq::empty()
    } else {
        let p = root_preferences(roots.drop_last());
        match roots.last().vid {
            Some(v) => assoc_set(p, roots.last().pid, v),
            None => p,
        }
    }
}

/// The versions the roots pin: each root marked as pinned that names a
/// version (a later one for the same project replacing an earlier one).
pub open spec fn root_pins(roots: Seq<SelectionV>) -> Assoc
    decreases roots.len(),
{
    if roots.len() == 0 {
        Seq::empty()
    } else {
        let p = root_pins(roots.drop_last());
        let r = roots.last();
        if r.pin && r.vid is Some {
            assoc_set(p, r.pid, r.vid->0)
        } else {
            p
        }
    }
}

/// The pinned version of a project: the one given in the pins, else the
/// one a pinned root names.
pub open spec fn pin_of(ctx: RCtx, pid: Seq<char>) -> Option<Seq<char>> {
    match lookup(ctx.pins, pid) {
        Some(v) => Some(v),
        None => lookup(root_pins(ctx.roots), pid),
    }
}

pub open spec fn initial_state(ctx: RCtx) -> RState {
    RState {
        selected: Seq::empty(),
        queue: ctx.roots.map_values(|r: SelectionV| r.pid),
        head: 0,
        preferred: root_preferences(ctx.roots),
    }
}

/// The version chosen for a project: its pin, else its preferred version,
/// else its latest version.
pub open spec fn pick_version(ctx: RCtx, st: RState, pid: Seq<char>) -> Option<Seq<char>> {
    match pin_of(ctx, pid) {
        Some(v) => Some(v),
        None => match lookup(st.preferred, pid) {
            Some(v) => Some(v),
            None => lookup(ctx.latest, pid),
        },
    }
}

pub open spec fn incompatible_conflict(cur: Seq<char>, other: Seq<char>) -> ConflictV {
    ConflictV { pid: other, left: cur, right: other, reason: "incompatible dependency"@ }
}

/// The effect of one edge of the package of project `cur`, just selected.
/// A required edge queues its project and, when it names a version, makes
/// that version preferred unless a preference is already set for a project
/// that is pinned or selected. Other edges change nothing while walking.
pub open spec fn apply_dep(ctx: RCtx, st: RState, cur: Seq<char>, d: DepV) -> RState {
    match d.kind {
        DepKind::Required => {
            let preferred = match d.vid {
                Some(v) => match lookup(st.preferred, d.pid) {
                    Some(prev) => if prev != v && pin_of(ctx, d.pid) is None && lookup(
                        st.selected,
                        d.pid,
                    ) is None {
                        assoc_set(st.preferred, d.pid, v)
                    } else {
                        st.preferred
                    },
                    None => assoc_set(st.preferred, d.pid, v),
                },
                None => st.preferred,
            };
            RState { preferred, queue: st.queue.push(d.pid), ..st }
        },
        _ => st,
    }
}

pub open spec fn apply_deps(ctx: RCtx, st: RState, cur: Seq<char>, deps: Seq<DepV>) -> RState
    decreases deps.len(),
{
    if deps.len() == 0 {
        st
    } else {
        apply_dep(ctx, apply_deps(ctx, st, cur, deps.drop_last()), cur, deps.last())
    }
}

/// Processing the next queued project. A project already selected is
/// skipped; otherwise its version is chosen, it is selected and the edges of
/// its package are followed.
pub open spec fn step(ctx: RCtx, st: RState) -> Result<RState, RError> {
    let pid = st.queue[st.head];
    let st1 = RState { head: st.head + 1, ..st };
    if lookup(st.selected, pid) is Some {
        Ok(st1)
    } else {
        match pick_version(ctx, st, pid) {
            None => Err(RError::NoVersion(pid)),
            Some(v) => if has_package(ctx, pid, v) {
                Ok(
                    apply_deps(
                        ctx,
                        RState { selected: st.selected.push((pid, v)), ..st1 },
                        pid,
                        package_of(ctx, pid, v).deps,
                    ),
                )
            } else {
                Err(RError::MissingPackage(pid, v))
            },
        }
    }
}

pub open spec fn package_ids(ctx: RCtx) -> Set<Seq<char>> {
    ctx.packages.map_values(|p: PackageV| p.pid).to_set()
}

pub open spec fn selected_ids(st: RState) -> Set<Seq<char>> {
    st.selected.map_values(|e: (Seq<char>, Seq<char>)| e.0).to_set()
}

/// The resolver's state is well formed: the queue position is in range and
/// every selected version has package metadata.
pub open spec fn wf(ctx: RCtx, st: RState) -> bool {
    &&& 0 <= st.head <= st.queue.len()
    &&& forall|i: int|
        0 <= i < st.selected.len() ==> has_package(
            ctx,
            (#[trigger] st.selected[i]).0,
            st.selected[i].1,
        )
}

pub open spec fn unselected_measure(ctx: RCtx, st: RState) -> nat {
    (package_ids(ctx).len() - selected_ids(st).len()) as nat
}

pub open spec fn queue_measure(st: RState) -> nat {
    (st.queue.len() - st.head) as nat
}

/// Runs the state machine until the queue is exhausted or an error occurs.
pub open spec fn run(ctx: RCtx, st: RState) -> Result<RState, RError>
    decreases unselected_measure(ctx, st), queue_measure(st),
    when wf(ctx, st)
{
    if st.head >= st.queue.len() {
        Ok(st)
    } else {
        match step(ctx, st) {
            Err(e) => Err(e),
            Ok(st2) => {
                proof {
                    lemma_step_progress(ctx, st);
                }
                run(ctx, st2)
            },
        }
    }
}

/// The conflict reported when a selected package asks for another version
/// of a selected, unpinned project.
pub open spec fn mismatch_of(ctx: RCtx, sel: Assoc, d: DepV) -> Seq<ConflictV> {
    if d.kind == DepKind::Required && d.vid is Some && lookup(sel, d.pid) is Some && d.vid->0
        != lookup(sel, d.pid)->0 && pin_of(ctx, d.pid) is None {
        seq![
            ConflictV {
                pid: d.pid,
                left: lookup(sel, d.pid)->0,
                right: d.vid->0,
                reason: "transitive version mismatch"@,
            },
        ]
    } else {
        Seq::empty()
    }
}

/// The conflict reported when the package of selected project `cur` is
/// incompatible with a selected project.
pub open spec fn incompat_of(sel: Assoc, cur: Seq<char>, d: DepV) -> Seq<ConflictV> {
    if d.kind == DepKind::Incompatible && lookup(sel, d.pid) is Some {
        seq![incompatible_conflict(cur, d.pid)]
    } else {
        Seq::empty()
    }
}

/// The conflicts one edge of the package of selected project `cur` shows
/// against the final selection `sel`.
pub open spec fn dep_conflicts(ctx: RCtx, sel: Assoc, cur: Seq<char>, d: DepV) -> Seq<ConflictV> {
    mismatch_of(ctx, sel, d) + incompat_of(sel, cur, d)
}

pub open spec fn deps_mismatches(ctx: RCtx, sel: Assoc, cur: Seq<char>, deps: Seq<DepV>) -> Seq<ConflictV>
    decreases deps.len(),
{
    if deps.len() == 0 {
        Seq::empty()
    } else {
        deps_mismatches(ctx, sel, cur, deps.drop_last()) + dep_conflicts(ctx, sel, cur, deps.last())
    }
}

/// The conflicts of the packages of `entries`, in order, against the final
/// selection `sel`.
pub open spec fn mismatches(ctx: RCtx, sel: Assoc, entries: Assoc) -> Seq<ConflictV>
    decreases entries.len(),
{
    if entries.len() == 0 {
        Seq::empty()
    } else {
        let e = entries.last();
        mismatches(ctx, sel, entries.drop_last()) + deps_mismatches(
            ctx,
            sel,
            e.0,
            package_of(ctx, e.0, e.1).deps,
        )
    }
}

/// The resolution of `ctx`: the selected projects with their versions, and
/// the conflicts the edges of the selected packages show against that
/// selection.
pub open spec fn resolution(ctx: RCtx) -> Result<(Assoc, Seq<ConflictV>), RError> {
    match run(ctx, initial_state(ctx)) {
        Err(e) => Err(e),
        Ok(fin) => Ok((fin.selected, mismatches(ctx, fin.selected, fin.selected))),
    }
}

// ---------------------------------------------------------------------------
// Progress of the state machine
// ---------------------------------------------------------------------------

pub proof fn lemma_apply_deps_frame(ctx: RCtx, st: RState, cur: Seq<char>, deps: Seq<DepV>)
    ensures
        apply_deps(ctx, st, cur, deps).selected == st.selected,
        apply_deps(ctx, st, cur, deps).head == st.head,
        apply_deps(ctx, st, cur, deps).queue.len() >= st.queue.len(),
    decreases deps.len(),
{
    if deps.len() > 0 {
        lemma_apply_deps_frame(ctx, st, cur, deps.drop_last());
    }
}

proof fn lemma_selected_ids_push(sel: Assoc, e: (Seq<char>, Seq<char>))
    ensures
        sel.push(e).map_values(|x: (Seq<char>, Seq<char>)| x.0).to_set() == sel.map_values(
            |x: (Seq<char>, Seq<char>)| x.0,
        ).to_set().insert(e.0),
{
    let f = |x: (Seq<char>, Seq<char>)| x.0;
    assert(sel.push(e).map_values(f) == sel.map_values(f).push(e.0));
    sel.map_values(f).lemma_push_to_set_commute(e.0);
}

proof fn lemma_ids_bounded(ctx: RCtx, st: RState)
    requires
        wf(ctx, st),
    ensures
        selected_ids(st) <= package_ids(ctx),
        selected_ids(st).finite(),
        package_ids(ctx).finite(),
        selected_ids(st).len() <= package_ids(ctx).len(),
{
    let f = |x: (Seq<char>, Seq<char>)| x.0;
    let g = |p: PackageV| p.pid;
    assert forall|k: Seq<char>| selected_ids(st).contains(k) implies package_ids(ctx).contains(k) by {
        let i = choose|i: int| 0 <= i < st.selected.map_values(f).len() && st.selected.map_values(f)[i] == k;
        assert(has_package(ctx, st.selected[i].0, st.selected[i].1));
        let j = pkg_index(ctx.packages, st.selected[i].0, st.selected[i].1) as int;
        lemma_first_index(ctx.packages, is_package(st.selected[i].0, st.selected[i].1));
        assert(ctx.packages.map_values(g)[j] == k);
    }
    vstd::seq_lib::seq_to_set_is_finite(st.selected.map_values(f));
    vstd::seq_lib::seq_to_set_is_finite(ctx.packages.map_values(g));
    vstd::set_lib::lemma_len_subset(selected_ids(st), package_ids(ctx));
}

/// Each step keeps the state well formed, and either selects a new project
/// (of which there are finitely many) or consumes a queue entry.
pub proof fn lemma_step_progress(ctx: RCtx, st: RState)
    requires
        wf(ctx, st),
        st.head < st.queue.len(),
    ensures
        step(ctx, st) matches Ok(st2) ==> {
            &&& wf(ctx, st2)
            &&& (unselected_measure(ctx, st2) < unselected_measure(ctx, st) || (
            unselected_measure(ctx, st2) == unselected_measure(ctx, st) && queue_measure(st2)
                < queue_measure(st)))
        },
{
    let pid = st.queue[st.head];
    lemma_ids_bounded(ctx, st);
    if lookup(st.selected, pid) is None {
        if let Some(v) = pick_version(ctx, st, pid) {
            if has_package(ctx, pid, v) {
                let st1 = RState { head: st.head + 1, ..st };
                let st_sel = RState { selected: st.selected.push((pid, v)), ..st1 };
                lemma_apply_deps_frame(ctx, st_sel, pid, package_of(ctx, pid, v).deps);
                let st2 = apply_deps(ctx, st_sel, pid, package_of(ctx, pid, v).deps);
                assert(wf(ctx, st2)) by {
                    assert forall|i: int| 0 <= i < st2.selected.len() implies has_package(
                        ctx,
                        (#[trigger] st2.selected[i]).0,
                        st2.selected[i].1,
                    ) by {
                        if i < st.selected.len() {
                            assert(st2.selected[i] == st.selected[i]);
                        }
                    }
                }
                lemma_selected_ids_push(st.selected, (pid, v));
                lemma_lookup_none(st.selected, pid);
                assert(!selected_ids(st).contains(pid)) by {
                    let f = |x: (Seq<char>, Seq<char>)| x.0;
                    if selected_ids(st).contains(pid) {
                        let i = choose|i: int| 0 <= i < st.selected.map_values(f).len() && st.selected.map_values(f)[i] == pid;
                        assert(st.selected[i].0 == pid);
                    }
                }
                lemma_ids_bounded(ctx, st2);
            }
        }
    }
}


// ===========================================================================
// The resolver
// ===========================================================================

pub open spec fn strs_view(v: Seq<String>) -> Seq<Seq<char>> {
    v.map_values(|s: String| s@)
}

/// The resolver context read from the executable inputs.
pub open spec fn ctx_of(
    roots: Seq<Selection>,
    packages: Seq<Package>,
    latest: Seq<(String, String)>,
    pins: Seq<(String, String)>,
) -> RCtx {
    RCtx {
        roots: roots.map_values(|r: Selection| r@),
        packages: packages.map_values(|p: Package| p@),
        latest: pairs_view(latest),
        pins: pairs_view(pins),
    }
}

pub open spec fn state_of(
    selected: Seq<(String, String)>,
    queue: Seq<String>,
    head: int,
    preferred: Seq<(String, String)>,
) -> RState {
    RState {
        selected: pairs_view(selected),
        queue: strs_view(queue),
        head,
        preferred: pairs_view(preferred),
    }
}

/// The value of the first entry with key `k`.
pub(crate) fn assoc_get(m: &[(String, String)], k: &str) -> (r: Option<String>)
    ensures
        oview(r) == lookup(pairs_view(m@), k@),
{
    let ghost mv = pairs_view(m@);
    let mut i: usize = 0;
    while i < m.len()
        invariant
            i <= m.len(),
            mv == pairs_view(m@),
            forall|j: int| 0 <= j < i ==> !key_is(k@)(#[trigger] mv[j]),
        decreases m.len() - i,
    {
        if str_eq(m[i].0.as_str(), k) {
            proof {
                lemma_first_index_unique(mv, key_is(k@), i as int);
            }
            return Some(m[i].1.clone());
        }
        i += 1;
    }
    proof {
        lemma_first_index_unique(mv, key_is(k@), m.len() as int);
    }
    None
}

/// Sets the value of key `k` to `v`.
pub(crate) fn assoc_put(m: &mut Vec<(String, String)>, k: &str, v: &str)
    ensures
        pairs_view(final(m)@) == assoc_set(pairs_view(old(m)@), k@, v@),
{
    let ghost mv = pairs_view(m@);
    let mut i: usize = 0;
    while i < m.len()
        invariant
            i <= m.len(),
            m@ == old(m)@,
            mv == pairs_view(m@),
            forall|j: int| 0 <= j < i ==> !key_is(k@)(#[trigger] mv[j]),
        decreases m.len() - i,
    {
        if str_eq(m[i].0.as_str(), k) {
            proof {
                lemma_first_index_unique(mv, key_is(k@), i as int);
            }
            m.set(i, (k.to_string(), v.to_string()));
            assert(pairs_view(m@) =~= mv.update(i as int, (k@, v@)));
            return;
        }
        i += 1;
    }
    proof {
        lemma_first_index_unique(mv, key_is(k@), m.len() as int);
    }
    m.push((k.to_string(), v.to_string()));
    assert(pairs_view(m@) =~= mv.push((k@, v@)));
}

/// Position of the first package of `pid` at version `vid`.
fn find_package(packages: &[Package], pid: &str, vid: &str) -> (r: Option<usize>)
    ensures
        match r {
            Some(i) => i == pkg_index(packages@.map_values(|p: Package| p@), pid@, vid@) && i
                < packages.len(),
            None => pkg_index(packages@.map_values(|p: Package| p@), pid@, vid@)
                == packages.len(),
        },
{
    let ghost pv = packages@.map_values(|p: Package| p@);
    let mut i: usize = 0;
    while i < packages.len()
        invariant
            i <= packages.len(),
            pv == packages@.map_values(|p: Package| p@),
            forall|j: int| 0 <= j < i ==> !is_package(pid@, vid@)(#[trigger] pv[j]),
        decreases packages.len() - i,
    {
        if str_eq(packages[i].project_id.as_str(), pid) && str_eq(
            packages[i].version_id.as_str(),
            vid,
        ) {
            proof {
                lemma_first_index_unique(pv, is_package(pid@, vid@), i as int);
            }
            return Some(i);
        }
        i += 1;
    }
    proof {
        lemma_first_index_unique(pv, is_package(pid@, vid@), packages.len() as int);
    }
    None
}

/// The pinned version of `pid`: the given pin, else a root's pin.
fn pin_get(pins: &[(String, String)], rpins: &Vec<(String, String)>, pid: &str) -> (r: Option<String>)
    ensures
        oview(r) == match lookup(pairs_view(pins@), pid@) {
            Some(v) => Some(v),
            None => lookup(pairs_view(rpins@), pid@),
        },
{
    match assoc_get(pins, pid) {
        Some(v) => Some(v),
        None => assoc_get(rpins.as_slice(), pid),
    }
}

fn follow_edge(
    Ghost(ctx): Ghost<RCtx>,
    pins: &[(String, String)],
    rpins: &Vec<(String, String)>,
    selected: &Vec<(String, String)>,
    preferred: &mut Vec<(String, String)>,
    queue: &mut Vec<String>,
    cur: &String,
    d: &DepRef,
)
    requires
        ctx.pins == pairs_view(pins@),
        root_pins(ctx.roots) == pairs_view(rpins@),
    ensures
        ({
            let st = apply_dep(ctx, state_of(selected@, old(queue)@, 0, old(preferred)@), cur@, d@);
            &&& pairs_view(final(preferred)@) == st.preferred
            &&& strs_view(final(queue)@) == st.queue
        }),
{
    match d.kind {
        DepKind::Required => {
            match &d.version_id {
                Some(vid) => {
                    match assoc_get(preferred, d.project_id.as_str()) {
                        Some(prev) => {
                            if !str_eq(prev.as_str(), vid.as_str()) && pin_get(
                                pins,
                                rpins,
                                d.project_id.as_str(),
                            ).is_none() && assoc_get(selected, d.project_id.as_str()).is_none() {
                                assoc_put(preferred, d.project_id.as_str(), vid.as_str());
                            }
                        },
                        None => {
                            assoc_put(preferred, d.project_id.as_str(), vid.as_str());
                        },
                    }
                },
                None => {},
            }
            queue.push(d.project_id.clone());
            assert(strs_view(queue@) =~= strs_view(old(queue)@).push(d.project_id@));
        },
        _ => {},
    }
}

fn mismatch_error(text: &str, pid: &String, vid: &String) -> (e: AppError)
    ensures
        e.message@ == text@ + pid@ + "@"@ + vid@,
{
    let mut v = chars_of(text);
    append(&mut v, &chars_of(pid.as_str()));
    append_str(&mut v, "@");
    append(&mut v, &chars_of(vid.as_str()));
    AppError::msg(string_of(&v))
}

/// Resolves a closed set of packages for an instance. Each project is chosen
/// once, at its pinned version (given, or set on a pinned root), else at the
/// version a root or an earlier required edge asked for, else at its latest
/// version. Required edges are followed transitively. Then the edges of the
/// selected packages are checked against the selection: an incompatible edge
/// to a selected project, and a required edge asking for another version of
/// a selected, unpinned project, are reported as conflicts.
pub fn resolve(
    instance_id: &str,
    roots: &[Selection],
    packages: &[Package],
    latest: &[(String, String)],
    pins: &[(String, String)],
) -> (r: AppResult<ResolveResult>)
    ensures
        match r {
            Ok(res) => {
                &&& resolution(ctx_of(roots@, packages@, latest@, pins@)) == Ok::<
                    (Assoc, Seq<ConflictV>),
                    RError,
                >((pairs_view(res.selected@), conflicts_view(res.conflicts@)))
                &&& res.instance_id@ == instance_id@
            },
            Err(e) => exists|err: RError|
                resolution(ctx_of(roots@, packages@, latest@, pins@)) == Err::<
                    (Assoc, Seq<ConflictV>),
                    RError,
                >(err) && e.message@ == error_text(err),
        },
{
    let ghost ctx = ctx_of(roots@, packages@, latest@, pins@);
    let mut queue: Vec<String> = Vec::new();
    let mut preferred: Vec<(String, String)> = Vec::new();
    let mut root_pin_list: Vec<(String, String)> = Vec::new();
    let mut i: usize = 0;
    while i < roots.len()
        invariant
            i <= roots.len(),
            ctx == ctx_of(roots@, packages@, latest@, pins@),
            strs_view(queue@) == ctx.roots.take(i as int).map_values(|r: SelectionV| r.pid),
            pairs_view(preferred@) == root_preferences(ctx.roots.take(i as int)),
            pairs_view(root_pin_list@) == root_pins(ctx.roots.take(i as int)),
        decreases roots.len() - i,
    {
        let ghost q0 = strs_view(queue@);
        queue.push(roots[i].project_id.clone());
        assert(strs_view(queue@) =~= q0.push(roots@[i as int].project_id@));
        match &roots[i].version_id {
            Some(v) => {
                assoc_put(&mut preferred, roots[i].project_id.as_str(), v.as_str());
                if roots[i].pin {
                    assoc_put(&mut root_pin_list, roots[i].project_id.as_str(), v.as_str());
                }
            },
            None => {},
        }
        i += 1;
        assert(ctx.roots.take(i as int).drop_last() == ctx.roots.take(i - 1));
        assert(ctx.roots.take(i as int).last() == ctx.roots[i - 1]);
        assert(ctx.roots.take(i as int).map_values(|r: SelectionV| r.pid) =~= ctx.roots.take(
            i - 1,
        ).map_values(|r: SelectionV| r.pid).push(ctx.roots[i - 1].pid));
    }
    assert(ctx.roots.take(roots.len() as int) == ctx.roots);
    let mut selected: Vec<(String, String)> = Vec::new();
    let mut head: usize = 0;
    assert(pairs_view(selected@) =~= Seq::empty());
    assert(state_of(selected@, queue@, 0, preferred@) == initial_state(ctx));
    while head < queue.len()
        invariant
            ctx == ctx_of(roots@, packages@, latest@, pins@),
            root_pins(ctx.roots) == pairs_view(root_pin_list@),
            wf(ctx, state_of(selected@, queue@, head as int, preferred@)),
            run(ctx, state_of(selected@, queue@, head as int, preferred@)) == run(
                ctx,
                initial_state(ctx),
            ),
        decreases
            unselected_measure(ctx, state_of(selected@, queue@, head as int, preferred@)),
            queue_measure(state_of(selected@, queue@, head as int, preferred@)),
    {
        let ghost st = state_of(selected@, queue@, head as int, preferred@);
        proof {
            lemma_step_progress(ctx, st);
        }
        let pid = queue[head].clone();
        head += 1;
        if assoc_get(&selected, pid.as_str()).is_some() {
            continue;
        }
        let version = match pin_get(pins, &root_pin_list, pid.as_str()) {
            Some(v) => v,
            None => match assoc_get(&preferred, pid.as_str()) {
                Some(v) => v,
                None => match assoc_get(latest, pid.as_str()) {
                    Some(v) => v,
                    None => {
                        proof {
                            assert(step(ctx, st) == Err::<RState, RError>(RError::NoVersion(pid@)));
                            assert(resolution(ctx) == Err::<(Assoc, Seq<ConflictV>), RError>(
                                RError::NoVersion(pid@),
                            ));
                        }
                        let e = AppError::msg(cat("No version available for project ", pid.as_str()));
                        assert(e.message@ == error_text(RError::NoVersion(pid@)));
                        return Err(e);
                    },
                },
            },
        };
        let pi = match find_package(packages, pid.as_str(), version.as_str()) {
            Some(pi) => pi,
            None => {
                proof {
                    assert(pick_version(ctx, st, pid@) == Some(version@));
                    assert(step(ctx, st) == Err::<RState, RError>(
                        RError::MissingPackage(pid@, version@),
                    ));
                    assert(resolution(ctx) == Err::<(Assoc, Seq<ConflictV>), RError>(
                        RError::MissingPackage(pid@, version@),
                    ));
                }
                let e = mismatch_error("Missing package metadata for ", &pid, &version);
                assert(e.message@ == error_text(RError::MissingPackage(pid@, version@)));
                return Err(e);
            },
        };
        selected.push((pid.clone(), version.clone()));
        let ghost st_sel = state_of(selected@, queue@, head as int, preferred@);
        assert(st_sel.selected =~= st.selected.push((pid@, version@)));
        let pkg = &packages[pi];
        let ghost deps = package_of(ctx, pid@, version@).deps;
        assert(deps == pkg.deps@.map_values(|d: DepRef| d@));
        let mut j: usize = 0;
        while j < pkg.deps.len()
            invariant
                ctx == ctx_of(roots@, packages@, latest@, pins@),
                root_pins(ctx.roots) == pairs_view(root_pin_list@),
                j <= pkg.deps.len(),
                deps == pkg.deps@.map_values(|d: DepRef| d@),
                state_of(selected@, queue@, head as int, preferred@) == apply_deps(
                    ctx,
                    st_sel,
                    pid@,
                    deps.take(j as int),
                ),
            decreases pkg.deps.len() - j,
        {
            follow_edge(
                Ghost(ctx),
                pins,
                &root_pin_list,
                &selected,
                &mut preferred,
                &mut queue,
                &pid,
                &pkg.deps[j],
            );
            j += 1;
            assert(deps.take(j as int).drop_last() == deps.take(j - 1));
        }
        assert(deps.take(pkg.deps.len() as int) == deps);
    }
    let ghost fin = state_of(selected@, queue@, head as int, preferred@);
    let ghost sel = fin.selected;
    let mut conflicts: Vec<Conflict> = Vec::new();
    assert(conflicts_view(conflicts@) =~= Seq::empty());
    let mut i: usize = 0;
    while i < selected.len()
        invariant
            ctx == ctx_of(roots@, packages@, latest@, pins@),
            root_pins(ctx.roots) == pairs_view(root_pin_list@),
            wf(ctx, fin),
            sel == fin.selected,
            sel == pairs_view(selected@),
            i <= selected.len(),
            conflicts_view(conflicts@) == mismatches(ctx, sel, sel.take(i as int)),
        decreases selected.len() - i,
    {
        assert(i < sel.len());
        assert(has_package(ctx, fin.selected[i as int].0, fin.selected[i as int].1));
        let found = find_package(packages, selected[i].0.as_str(), selected[i].1.as_str());
        let pi = found.unwrap();
        let cur = &selected[i].0;
        let deps = &packages[pi].deps;
        let ghost dv = deps@.map_values(|d: DepRef| d@);
        let ghost before = conflicts_view(conflicts@);
        let mut j: usize = 0;
        while j < deps.len()
            invariant
                ctx == ctx_of(roots@, packages@, latest@, pins@),
                root_pins(ctx.roots) == pairs_view(root_pin_list@),
                sel == pairs_view(selected@),
                dv == deps@.map_values(|d: DepRef| d@),
                j <= deps.len(),
                conflicts_view(conflicts@) == before + deps_mismatches(ctx, sel, cur@, dv.take(j as int)),
            decreases deps.len() - j,
        {
            let d = &deps[j];
            let ghost dd = dv[j as int];
            let ghost c0 = conflicts_view(conflicts@);
            if d.kind == DepKind::Required {
                match &d.version_id {
                    Some(want) => {
                        match assoc_get(&selected, d.project_id.as_str()) {
                            Some(got) => {
                                if !str_eq(want.as_str(), got.as_str()) && pin_get(
                                    pins,
                                    &root_pin_list,
                                    d.project_id.as_str(),
                                ).is_none() {
                                    conflicts.push(
                                        Conflict {
                                            project_id: d.project_id.clone(),
                                            left: got,
                                            right: want.clone(),
                                            reason: lit("transitive version mismatch"),
                                        },
                                    );
                                }
                            },
                            None => {},
                        }
                    },
                    None => {},
                }
            } else if d.kind == DepKind::Incompatible {
                if assoc_get(&selected, d.project_id.as_str()).is_some() {
                    conflicts.push(
                        Conflict {
                            project_id: d.project_id.clone(),
                            left: cur.clone(),
                            right: d.project_id.clone(),
                            reason: lit("incompatible dependency"),
                        },
                    );
                }
            }
            proof {
                assert(dv.take(j + 1).drop_last() == dv.take(j as int));
                assert(conflicts_view(conflicts@) =~= c0 + dep_conflicts(ctx, sel, cur@, dd));
            }
            j += 1;
        }
        proof {
            assert(dv.take(deps.len() as int) == dv);
            assert(sel.take(i + 1).drop_last() == sel.take(i as int));
            assert(sel.take(i + 1).last() == sel[i as int]);
            lemma_first_index(ctx.packages, is_package(sel[i as int].0, sel[i as int].1));
        }
        i += 1;
    }
    assert(sel.take(selected.len() as int) == sel);
    Ok(ResolveResult { instance_id: instance_id.to_string(), selected, conflicts })
}


// ===========================================================================
// Laws of the resolver
// ===========================================================================

/// What every reachable state of the resolver satisfies.
pub open spec fn reach_inv(ctx: RCtx, st: RState) -> bool {
    // every consumed queue entry is selected
    &&& forall|j: int| 0 <= j < st.head ==> lookup(st.selected, #[trigger] st.queue[j]) is Some
    // the roots open the queue
    &&& ctx.roots.len() <= st.queue.len()
    &&& forall|j: int| 0 <= j < ctx.roots.len() ==> st.queue[j] == (#[trigger] ctx.roots[j]).pid
    // each project is selected once
    &&& forall|a: int, b: int|
        0 <= a < b < st.selected.len() ==> (#[trigger] st.selected[a]).0 != (
        #[trigger] st.selected[b]).0
    // pins are honoured
    &&& forall|a: int|
        0 <= a < st.selected.len() && pin_of(ctx, (#[trigger] st.selected[a]).0) is Some
            ==> st.selected[a].1 == pin_of(ctx, st.selected[a].0)->0
    // the required edges of selected packages are queued
    &&& forall|a: int, k: int|
        0 <= a < st.selected.len() && 0 <= k < package_of(
            ctx,
            st.selected[a].0,
            st.selected[a].1,
        ).deps.len() && (#[trigger] package_of(
            ctx,
            (#[trigger] st.selected[a]).0,
            st.selected[a].1,
        ).deps[k]).kind == DepKind::Required ==> st.queue.contains(
            package_of(ctx, st.selected[a].0, st.selected[a].1).deps[k].pid,
        )
}

pub proof fn lemma_apply_deps_effects(ctx: RCtx, st: RState, cur: Seq<char>, deps: Seq<DepV>)
    ensures
        ({
            let r = apply_deps(ctx, st, cur, deps);
            &&& r.selected == st.selected
            &&& r.head == st.head
            &&& r.queue.len() >= st.queue.len()
            &&& forall|j: int| 0 <= j < st.queue.len() ==> r.queue[j] == st.queue[j]
            &&& forall|k: int|
                0 <= k < deps.len() && (#[trigger] deps[k]).kind == DepKind::Required
                    ==> r.queue.contains(deps[k].pid)
        }),
    decreases deps.len(),
{
    if deps.len() > 0 {
        let p = apply_deps(ctx, st, cur, deps.drop_last());
        lemma_apply_deps_effects(ctx, st, cur, deps.drop_last());
        let r = apply_deps(ctx, st, cur, deps);
        let d = deps.last();
        assert(r == apply_dep(ctx, p, cur, d));
        assert forall|k: int|
            0 <= k < deps.len() && (#[trigger] deps[k]).kind == DepKind::Required implies r.queue.contains(
            deps[k].pid,
        ) by {
            if k < deps.len() - 1 {
                assert(deps[k] == deps.drop_last()[k]);
                let j = choose|j: int| 0 <= j < p.queue.len() && p.queue[j] == deps[k].pid;
                assert(r.queue[j] == p.queue[j]);
            } else {
                assert(r.queue[r.queue.len() - 1] == d.pid);
            }
        }
    }
}

pub proof fn lemma_step_inv(ctx: RCtx, st: RState)
    requires
        wf(ctx, st),
        reach_inv(ctx, st),
        st.head < st.queue.len(),
    ensures
        step(ctx, st) matches Ok(st2) ==> reach_inv(ctx, st2),
{
    let pid = st.queue[st.head];
    lemma_lookup_none(st.selected, pid);
    if lookup(st.selected, pid) is Some {
        let st2 = RState { head: st.head + 1, ..st };
        assert(step(ctx, st) == Ok::<RState, RError>(st2));
    } else if let Some(v) = pick_version(ctx, st, pid) {
        if has_package(ctx, pid, v) {
            let st1 = RState { head: st.head + 1, ..st };
            let ss = RState { selected: st.selected.push((pid, v)), ..st1 };
            let deps = package_of(ctx, pid, v).deps;
            lemma_apply_deps_effects(ctx, ss, pid, deps);
            let st2 = apply_deps(ctx, ss, pid, deps);
            let n = st.selected.len();
            assert(st2.selected == st.selected.push((pid, v)));
            assert forall|j: int| 0 <= j < st2.head implies lookup(
                st2.selected,
                #[trigger] st2.queue[j],
            ) is Some by {
                assert(st2.queue[j] == st.queue[j]);
                lemma_lookup_none(st2.selected, st2.queue[j]);
                if j < st.head {
                    lemma_lookup_none(st.selected, st.queue[j]);
                    let a = choose|a: int| 0 <= a < st.selected.len() && (#[trigger] st.selected[a]).0 == st.queue[j];
                    assert(st2.selected[a] == st.selected[a]);
                } else {
                    assert(st2.selected[n as int].0 == pid);
                }
            }
            assert forall|a: int|
                0 <= a < st2.selected.len() && pin_of(ctx, (#[trigger] st2.selected[a]).0) is Some
                    implies st2.selected[a].1 == pin_of(ctx, st2.selected[a].0)->0 by {
                if a < n {
                    assert(st2.selected[a] == st.selected[a]);
                }
            }
            assert forall|a: int, b: int|
                0 <= a < b < st2.selected.len() implies (#[trigger] st2.selected[a]).0 != (
                #[trigger] st2.selected[b]).0 by {
                if b < n {
                    assert(st2.selected[a] == st.selected[a]);
                    assert(st2.selected[b] == st.selected[b]);
                } else {
                    assert(st2.selected[a] == st.selected[a]);
                }
            }
            assert forall|a: int, k: int|
                0 <= a < st2.selected.len() && 0 <= k < package_of(
                    ctx,
                    st2.selected[a].0,
                    st2.selected[a].1,
                ).deps.len() && (#[trigger] package_of(
                    ctx,
                    (#[trigger] st2.selected[a]).0,
                    st2.selected[a].1,
                ).deps[k]).kind == DepKind::Required implies st2.queue.contains(
                package_of(ctx, st2.selected[a].0, st2.selected[a].1).deps[k].pid,
            ) by {
                if a < n {
                    assert(st2.selected[a] == st.selected[a]);
                    let q = package_of(ctx, st.selected[a].0, st.selected[a].1).deps[k].pid;
                    assert(st.queue.contains(q));
                    let j = choose|j: int| 0 <= j < st.queue.len() && st.queue[j] == q;
                    assert(st2.queue[j] == st.queue[j]);
                } else {
                    assert(st2.selected[a] == (pid, v));
                }
            }
        }
    }
}

pub proof fn lemma_run_inv(ctx: RCtx, st: RState)
    requires
        wf(ctx, st),
        reach_inv(ctx, st),
    ensures
        run(ctx, st) matches Ok(fin) ==> {
            &&& wf(ctx, fin)
            &&& reach_inv(ctx, fin)
            &&& fin.head >= fin.queue.len()
        },
    decreases unselected_measure(ctx, st), queue_measure(st),
{
    if st.head < st.queue.len() {
        lemma_step_progress(ctx, st);
        if let Ok(st2) = step(ctx, st) {
            lemma_step_inv(ctx, st);
            lemma_run_inv(ctx, st2);
        }
    }
}

proof fn lemma_initial(ctx: RCtx)
    ensures
        wf(ctx, initial_state(ctx)),
        reach_inv(ctx, initial_state(ctx)),
{
}

/// The final state of a successful resolution satisfies the invariant.
proof fn lemma_final(ctx: RCtx) -> (fin: RState)
    requires
        resolution(ctx) is Ok,
    ensures
        run(ctx, initial_state(ctx)) == Ok::<RState, RError>(fin),
        wf(ctx, fin),
        reach_inv(ctx, fin),
        fin.head >= fin.queue.len(),
        resolution(ctx) == Ok::<(Assoc, Seq<ConflictV>), RError>(
            (fin.selected, mismatches(ctx, fin.selected, fin.selected)),
        ),
{
    lemma_initial(ctx);
    lemma_run_inv(ctx, initial_state(ctx));
    run(ctx, initial_state(ctx))->Ok_0
}

/// The entry of a selected project is the one `lookup` finds.
proof fn lemma_lookup_selected(ctx: RCtx, fin: RState, a: int)
    requires
        reach_inv(ctx, fin),
        0 <= a < fin.selected.len(),
    ensures
        lookup(fin.selected, fin.selected[a].0) == Some(fin.selected[a].1),
{
    let k = fin.selected[a].0;
    assert forall|j: int| 0 <= j < a implies !key_is(k)(#[trigger] fin.selected[j]) by {
        assert(fin.selected[j].0 != fin.selected[a].0);
    }
    lemma_first_index_unique(fin.selected, key_is(k), a);
}

/// Every project a root asks for is selected.
pub proof fn law_roots_selected(ctx: RCtx, i: int)
    requires
        resolution(ctx) is Ok,
        0 <= i < ctx.roots.len(),
    ensures
        lookup(resolution(ctx)->Ok_0.0, ctx.roots[i].pid) is Some,
{
    let fin = lemma_final(ctx);
    assert(fin.queue[i] == ctx.roots[i].pid);
}

/// The selection is closed under required edges: every project a selected
/// package requires is selected too.
pub proof fn law_required_closed(ctx: RCtx, a: int, k: int)
    requires
        resolution(ctx) is Ok,
        0 <= a < resolution(ctx)->Ok_0.0.len(),
        ({
            let e = resolution(ctx)->Ok_0.0[a];
            &&& 0 <= k < package_of(ctx, e.0, e.1).deps.len()
            &&& package_of(ctx, e.0, e.1).deps[k].kind == DepKind::Required
        }),
    ensures
        ({
            let sel = resolution(ctx)->Ok_0.0;
            lookup(sel, package_of(ctx, sel[a].0, sel[a].1).deps[k].pid) is Some
        }),
{
    let fin = lemma_final(ctx);
    let q = package_of(ctx, fin.selected[a].0, fin.selected[a].1).deps[k].pid;
    assert(package_of(ctx, fin.selected[a].0, fin.selected[a].1).deps[k].kind == DepKind::Required);
    assert(fin.queue.contains(q));
    let j = choose|j: int| 0 <= j < fin.queue.len() && fin.queue[j] == q;
    assert(lookup(fin.selected, fin.queue[j]) is Some);
}

/// Every selected version has package metadata.
pub proof fn law_selected_known(ctx: RCtx, a: int)
    requires
        resolution(ctx) is Ok,
        0 <= a < resolution(ctx)->Ok_0.0.len(),
    ensures
        has_package(ctx, resolution(ctx)->Ok_0.0[a].0, resolution(ctx)->Ok_0.0[a].1),
{
    let fin = lemma_final(ctx);
    assert(has_package(ctx, fin.selected[a].0, fin.selected[a].1));
}

/// Each project is selected at most once.
pub proof fn law_selected_once(ctx: RCtx, a: int, b: int)
    requires
        resolution(ctx) is Ok,
        0 <= a < b < resolution(ctx)->Ok_0.0.len(),
    ensures
        resolution(ctx)->Ok_0.0[a].0 != resolution(ctx)->Ok_0.0[b].0,
{
    let fin = lemma_final(ctx);
    assert(fin.selected[a].0 != fin.selected[b].0);
}

/// Pins win: a pinned project (by the given pins or by a pinned root) that
/// is selected is selected at its pinned version, whatever version a root
/// or a dependency asks for.
pub proof fn law_pins_win(ctx: RCtx, pid: Seq<char>)
    requires
        resolution(ctx) is Ok,
        pin_of(ctx, pid) is Some,
        lookup(resolution(ctx)->Ok_0.0, pid) is Some,
    ensures
        lookup(resolution(ctx)->Ok_0.0, pid) == pin_of(ctx, pid),
{
    let fin = lemma_final(ctx);
    lemma_lookup_none(fin.selected, pid);
    let a = choose|a: int| 0 <= a < fin.selected.len() && (#[trigger] fin.selected[a]).0 == pid;
    lemma_lookup_selected(ctx, fin, a);
}

/// Setting key `k` makes `lookup` find `v` under `k` and leaves the other
/// keys as they were.
pub proof fn lemma_assoc_set(m: Assoc, k: Seq<char>, v: Seq<char>, k2: Seq<char>)
    ensures
        lookup(assoc_set(m, k, v), k) == Some(v),
        k2 != k ==> lookup(assoc_set(m, k, v), k2) == lookup(m, k2),
{
    lemma_first_index(m, key_is(k));
    lemma_first_index(m, key_is(k2));
    let i = first_index(m, key_is(k)) as int;
    let i2 = first_index(m, key_is(k2)) as int;
    let m2 = assoc_set(m, k, v);
    if i < m.len() {
        assert(m2 == m.update(i, (k, v)));
        assert forall|j: int| 0 <= j < m.len() && j != i implies #[trigger] m2[j] == m[j] by {}
        assert forall|j: int| 0 <= j < i implies !key_is(k)(#[trigger] m2[j]) by {
            assert(!key_is(k)(m[j]));
        }
        lemma_first_index_unique(m2, key_is(k), i);
        if k2 != k {
            assert forall|j: int| 0 <= j < i2 implies !key_is(k2)(#[trigger] m2[j]) by {
                assert(!key_is(k2)(m[j]));
                if j == i {
                    assert(m2[j].0 == k);
                }
            }
            if i2 < m.len() {
                assert(m2[i2] == m[i2]);
            }
            lemma_first_index_unique(m2, key_is(k2), i2);
        }
    } else {
        assert(m2 == m.push((k, v)));
        assert forall|j: int| 0 <= j < i implies !key_is(k)(#[trigger] m2[j]) by {
            assert(!key_is(k)(m[j]));
        }
        lemma_first_index_unique(m2, key_is(k), i);
        if k2 != k {
            assert forall|j: int| 0 <= j < i2 implies !key_is(k2)(#[trigger] m2[j]) by {
                assert(!key_is(k2)(m[j]));
            }
            if i2 < m.len() {
                assert(m2[i2] == m[i2]);
                lemma_first_index_unique(m2, key_is(k2), i2);
            } else {
                assert(!key_is(k2)(m2[m.len() as int]));
                lemma_first_index_unique(m2, key_is(k2), m2.len() as int);
            }
        }
    }
}

/// The pin the last pinned root naming a version of a project sets.
proof fn lemma_root_pin(roots: Seq<SelectionV>, i: int)
    requires
        0 <= i < roots.len(),
        roots[i].pin,
        roots[i].vid is Some,
        forall|j: int|
            i < j < roots.len() && (#[trigger] roots[j]).pid == roots[i].pid ==> !(roots[j].pin
                && roots[j].vid is Some),
    ensures
        lookup(root_pins(roots), roots[i].pid) == roots[i].vid,
    decreases roots.len(),
{
    let n = roots.len();
    let d = roots.drop_last();
    let pid = roots[i].pid;
    if i == n - 1 {
        lemma_assoc_set(root_pins(d), pid, roots[i].vid->0, pid);
    } else {
        assert(d[i] == roots[i]);
        assert forall|j: int| i < j < d.len() && (#[trigger] d[j]).pid == d[i].pid implies !(d[j].pin
            && d[j].vid is Some) by {
            assert(d[j] == roots[j]);
        }
        lemma_root_pin(d, i);
        let r = roots.last();
        if r.pin && r.vid is Some {
            assert(roots[n - 1] == r);
            assert(r.pid != pid);
            lemma_assoc_set(root_pins(d), r.pid, r.vid->0, pid);
        }
    }
}

/// A root the user pinned at a version keeps that version, whatever version
/// a dependency asks for (unless the pins given alongside name another one
/// for it, or a later root pins it again: those inputs are left out).
pub proof fn law_pinned_root_wins(ctx: RCtx, i: int)
    requires
        resolution(ctx) is Ok,
        0 <= i < ctx.roots.len(),
        ctx.roots[i].pin,
        ctx.roots[i].vid is Some,
        lookup(ctx.pins, ctx.roots[i].pid) is None,
        forall|j: int|
            i < j < ctx.roots.len() && (#[trigger] ctx.roots[j]).pid == ctx.roots[i].pid ==> !(
            ctx.roots[j].pin && ctx.roots[j].vid is Some),
    ensures
        lookup(resolution(ctx)->Ok_0.0, ctx.roots[i].pid) == ctx.roots[i].vid,
{
    law_roots_selected(ctx, i);
    lemma_root_pin(ctx.roots, i);
    law_pins_win(ctx, ctx.roots[i].pid);
}

proof fn lemma_deps_mismatches_empty(ctx: RCtx, sel: Assoc, cur: Seq<char>, deps: Seq<DepV>, k: int)
    requires
        deps_mismatches(ctx, sel, cur, deps).len() == 0,
        0 <= k < deps.len(),
    ensures
        mismatch_of(ctx, sel, deps[k]).len() == 0,
        incompat_of(sel, cur, deps[k]).len() == 0,
    decreases deps.len(),
{
    if k < deps.len() - 1 {
        assert(deps.drop_last()[k] == deps[k]);
        lemma_deps_mismatches_empty(ctx, sel, cur, deps.drop_last(), k);
    }
}

proof fn lemma_mismatches_empty(ctx: RCtx, sel: Assoc, entries: Assoc, a: int)
    requires
        mismatches(ctx, sel, entries).len() == 0,
        0 <= a < entries.len(),
    ensures
        deps_mismatches(ctx, sel, entries[a].0, package_of(ctx, entries[a].0, entries[a].1).deps).len() == 0,
    decreases entries.len(),
{
    if a < entries.len() - 1 {
        assert(entries.drop_last()[a] == entries[a]);
        lemma_mismatches_empty(ctx, sel, entries.drop_last(), a);
    }
}

proof fn lemma_deps_conflict_in(ctx: RCtx, sel: Assoc, cur: Seq<char>, deps: Seq<DepV>, k: int)
    requires
        0 <= k < deps.len(),
        deps[k].kind == DepKind::Incompatible,
        lookup(sel, deps[k].pid) is Some,
    ensures
        deps_mismatches(ctx, sel, cur, deps).contains(incompatible_conflict(cur, deps[k].pid)),
    decreases deps.len(),
{
    let c = incompatible_conflict(cur, deps[k].pid);
    let d = deps.drop_last();
    let prev = deps_mismatches(ctx, sel, cur, d);
    let last = dep_conflicts(ctx, sel, cur, deps.last());
    assert(deps_mismatches(ctx, sel, cur, deps) == prev + last);
    if k < deps.len() - 1 {
        assert(d[k] == deps[k]);
        lemma_deps_conflict_in(ctx, sel, cur, d, k);
        let j = choose|j: int| 0 <= j < prev.len() && prev[j] == c;
        assert((prev + last)[j] == c);
    } else {
        assert(mismatch_of(ctx, sel, deps.last()).len() == 0);
        assert(incompat_of(sel, cur, deps.last()) == seq![c]);
        assert((prev + last)[prev.len() as int] == c);
    }
}

proof fn lemma_conflict_in(ctx: RCtx, sel: Assoc, entries: Assoc, a: int, k: int)
    requires
        0 <= a < entries.len(),
        ({
            let ds = package_of(ctx, entries[a].0, entries[a].1).deps;
            &&& 0 <= k < ds.len()
            &&& ds[k].kind == DepKind::Incompatible
            &&& lookup(sel, ds[k].pid) is Some
        }),
    ensures
        mismatches(ctx, sel, entries).contains(
            incompatible_conflict(entries[a].0, package_of(ctx, entries[a].0, entries[a].1).deps[k].pid),
        ),
    decreases entries.len(),
{
    let c = incompatible_conflict(entries[a].0, package_of(ctx, entries[a].0, entries[a].1).deps[k].pid);
    let d = entries.drop_last();
    let e = entries.last();
    let prev = mismatches(ctx, sel, d);
    let last = deps_mismatches(ctx, sel, e.0, package_of(ctx, e.0, e.1).deps);
    assert(mismatches(ctx, sel, entries) == prev + last);
    if a < entries.len() - 1 {
        assert(d[a] == entries[a]);
        lemma_conflict_in(ctx, sel, d, a, k);
        let j = choose|j: int| 0 <= j < prev.len() && prev[j] == c;
        assert((prev + last)[j] == c);
    } else {
        lemma_deps_conflict_in(ctx, sel, e.0, package_of(ctx, e.0, e.1).deps, k);
        let j = choose|j: int| 0 <= j < last.len() && last[j] == c;
        assert((prev + last)[prev.len() + j] == c);
    }
}

/// With no conflicts reported, every version a selected package asks for of
/// an unpinned project is the version selected.
pub proof fn law_requests_met(ctx: RCtx, a: int, k: int)
    requires
        resolution(ctx) is Ok,
        resolution(ctx)->Ok_0.1.len() == 0,
        0 <= a < resolution(ctx)->Ok_0.0.len(),
        ({
            let e = resolution(ctx)->Ok_0.0[a];
            let d = package_of(ctx, e.0, e.1).deps[k];
            &&& 0 <= k < package_of(ctx, e.0, e.1).deps.len()
            &&& d.kind == DepKind::Required
            &&& d.vid is Some
            &&& pin_of(ctx, d.pid) is None
        }),
    ensures
        ({
            let sel = resolution(ctx)->Ok_0.0;
            let d = package_of(ctx, sel[a].0, sel[a].1).deps[k];
            lookup(sel, d.pid) == d.vid
        }),
{
    let fin = lemma_final(ctx);
    let sel = fin.selected;
    law_required_closed(ctx, a, k);
    assert(mismatches(ctx, sel, sel).len() == 0);
    lemma_mismatches_empty(ctx, sel, sel, a);
    lemma_deps_mismatches_empty(ctx, sel, sel[a].0, package_of(ctx, sel[a].0, sel[a].1).deps, k);
}

/// Every incompatible edge between selected projects is reported: when a
/// selected package is incompatible with a project that is selected too,
/// the conflicts hold that edge, whatever order the projects were met in.
pub proof fn law_incompatible_reported(ctx: RCtx, a: int, k: int)
    requires
        resolution(ctx) is Ok,
        0 <= a < resolution(ctx)->Ok_0.0.len(),
        ({
            let sel = resolution(ctx)->Ok_0.0;
            let ds = package_of(ctx, sel[a].0, sel[a].1).deps;
            &&& 0 <= k < ds.len()
            &&& ds[k].kind == DepKind::Incompatible
            &&& lookup(sel, ds[k].pid) is Some
        }),
    ensures
        ({
            let sel = resolution(ctx)->Ok_0.0;
            resolution(ctx)->Ok_0.1.contains(
                incompatible_conflict(sel[a].0, package_of(ctx, sel[a].0, sel[a].1).deps[k].pid),
            )
        }),
{
    let fin = lemma_final(ctx);
    lemma_conflict_in(ctx, fin.selected, fin.selected, a, k);
}

/// With no conflicts reported, no selected package is incompatible with a
/// project the user asked for.
pub proof fn law_no_incompatible_roots(ctx: RCtx, a: int, k: int)
    requires
        resolution(ctx) is Ok,
        resolution(ctx)->Ok_0.1.len() == 0,
        0 <= a < resolution(ctx)->Ok_0.0.len(),
        ({
            let e = resolution(ctx)->Ok_0.0[a];
            &&& 0 <= k < package_of(ctx, e.0, e.1).deps.len()
            &&& package_of(ctx, e.0, e.1).deps[k].kind == DepKind::Incompatible
        }),
    ensures
        ({
            let sel = resolution(ctx)->Ok_0.0;
            !is_root(ctx, package_of(ctx, sel[a].0, sel[a].1).deps[k].pid)
        }),
{
    let fin = lemma_final(ctx);
    let sel = fin.selected;
    let d = package_of(ctx, sel[a].0, sel[a].1).deps[k];
    if is_root(ctx, d.pid) {
        let i = choose|i: int| 0 <= i < ctx.roots.len() && (#[trigger] ctx.roots[i]).pid == d.pid;
        law_roots_selected(ctx, i);
        law_incompatible_reported(ctx, a, k);
        assert(resolution(ctx)->Ok_0.1.len() > 0);
    }
}


// ---------------------------------------------------------------------------
// Requested versions
// ---------------------------------------------------------------------------

/// Every required edge to `q` among the packages of `sel` names version `v`.
pub open spec fn edges_name(ctx: RCtx, sel: Assoc, q: Seq<char>, v: Seq<char>) -> bool {
    forall|a: int, k: int|
        0 <= a < sel.len() && 0 <= k < package_of(ctx, sel[a].0, sel[a].1).deps.len() && (#[trigger] package_of(
            ctx,
            sel[a].0,
            sel[a].1,
        ).deps[k]).kind == DepKind::Required && package_of(ctx, sel[a].0, sel[a].1).deps[k].pid == q
            ==> package_of(ctx, sel[a].0, sel[a].1).deps[k].vid == Some(v)
}

/// While walking, project `q` is preferred at `v` once it is queued, is
/// never preferred at another version, and is selected at `v` if at all.
spec fn pref_inv(st: RState, q: Seq<char>, v: Seq<char>) -> bool {
    &&& st.queue.contains(q) ==> lookup(st.preferred, q) == Some(v)
    &&& lookup(st.preferred, q) is Some ==> lookup(st.preferred, q) == Some(v)
    &&& lookup(st.selected, q) is Some ==> lookup(st.selected, q) == Some(v)
}

proof fn lemma_lookup_push(m: Assoc, e: (Seq<char>, Seq<char>), k: Seq<char>)
    ensures
        lookup(m.push(e), k) == (if lookup(m, k) is Some {
            lookup(m, k)
        } else if e.0 == k {
            Some(e.1)
        } else {
            None
        }),
{
    let m2 = m.push(e);
    lemma_first_index(m, key_is(k));
    let i = first_index(m, key_is(k)) as int;
    assert forall|j: int| 0 <= j < m.len() implies #[trigger] m2[j] == m[j] by {}
    if i < m.len() {
        assert forall|j: int| 0 <= j < i implies !key_is(k)(#[trigger] m2[j]) by {
            assert(m2[j] == m[j]);
        }
        assert(m2[i] == m[i]);
        lemma_first_index_unique(m2, key_is(k), i);
    } else if e.0 == k {
        assert forall|j: int| 0 <= j < m.len() implies !key_is(k)(#[trigger] m2[j]) by {
            assert(m2[j] == m[j]);
        }
        assert(m2[m.len() as int] == e);
        lemma_first_index_unique(m2, key_is(k), m.len() as int);
    } else {
        assert forall|j: int| 0 <= j < m2.len() implies !key_is(k)(#[trigger] m2[j]) by {
            if j < m.len() {
                assert(m2[j] == m[j]);
            } else {
                assert(m2[j] == e);
            }
        }
        lemma_first_index_unique(m2, key_is(k), m2.len() as int);
    }
}

proof fn lemma_root_prefs_none(roots: Seq<SelectionV>, q: Seq<char>)
    requires
        forall|i: int| 0 <= i < roots.len() ==> (#[trigger] roots[i]).pid != q,
    ensures
        lookup(root_preferences(roots), q) is None,
        lookup(root_pins(roots), q) is None,
    decreases roots.len(),
{
    if roots.len() > 0 {
        let d = roots.drop_last();
        assert forall|i: int| 0 <= i < d.len() implies (#[trigger] d[i]).pid != q by {
            assert(d[i] == roots[i]);
        }
        lemma_root_prefs_none(d, q);
        let r = roots.last();
        assert(r == roots[roots.len() - 1]);
        if let Some(v) = r.vid {
            lemma_assoc_set(root_preferences(d), r.pid, v, q);
            lemma_assoc_set(root_pins(d), r.pid, v, q);
        }
    }
}

proof fn lemma_apply_deps_pref(ctx: RCtx, st: RState, cur: Seq<char>, deps: Seq<DepV>, q: Seq<char>, v: Seq<char>)
    requires
        pref_inv(st, q, v),
        pin_of(ctx, q) is None,
        forall|k: int|
            0 <= k < deps.len() && (#[trigger] deps[k]).kind == DepKind::Required && deps[k].pid == q ==> deps[k].vid
                == Some(v),
    ensures
        pref_inv(apply_deps(ctx, st, cur, deps), q, v),
        apply_deps(ctx, st, cur, deps).selected == st.selected,
    decreases deps.len(),
{
    if deps.len() > 0 {
        let dl = deps.drop_last();
        assert forall|k: int|
            0 <= k < dl.len() && (#[trigger] dl[k]).kind == DepKind::Required && dl[k].pid == q implies dl[k].vid
            == Some(v) by {
            assert(dl[k] == deps[k]);
        }
        lemma_apply_deps_pref(ctx, st, cur, dl, q, v);
        let p = apply_deps(ctx, st, cur, dl);
        let d = deps.last();
        assert(d == deps[deps.len() - 1]);
        let r = apply_dep(ctx, p, cur, d);
        assert(apply_deps(ctx, st, cur, deps) == r);
        if d.kind == DepKind::Required {
            assert(r.queue == p.queue.push(d.pid));
            if d.pid == q {
                assert(d.vid == Some(v));
                if lookup(p.preferred, q) is None {
                    lemma_assoc_set(p.preferred, q, v, q);
                }
                assert(lookup(r.preferred, q) == Some(v));
            } else {
                if let Some(w) = d.vid {
                    lemma_assoc_set(p.preferred, d.pid, w, q);
                }
                assert(lookup(r.preferred, q) == lookup(p.preferred, q));
                if r.queue.contains(q) {
                    let j = choose|j: int| 0 <= j < r.queue.len() && r.queue[j] == q;
                    assert(j < p.queue.len());
                    assert(p.queue[j] == q);
                }
            }
        }
    }
}

proof fn lemma_step_pref(ctx: RCtx, st: RState, q: Seq<char>, v: Seq<char>)
    requires
        wf(ctx, st),
        st.head < st.queue.len(),
        pref_inv(st, q, v),
        pin_of(ctx, q) is None,
        step(ctx, st) matches Ok(st2) ==> edges_name(ctx, st2.selected, q, v),
    ensures
        step(ctx, st) matches Ok(st2) ==> pref_inv(st2, q, v),
{
    let pid = st.queue[st.head];
    if lookup(st.selected, pid) is None {
        if let Some(w) = pick_version(ctx, st, pid) {
            if has_package(ctx, pid, w) {
                let st1 = RState { head: st.head + 1, ..st };
                let ss = RState { selected: st.selected.push((pid, w)), ..st1 };
                let deps = package_of(ctx, pid, w).deps;
                lemma_lookup_push(st.selected, (pid, w), q);
                if pid == q {
                    assert(st.queue.contains(q));
                }
                assert(pref_inv(ss, q, v));
                lemma_apply_deps_frame(ctx, ss, pid, deps);
                let st2 = apply_deps(ctx, ss, pid, deps);
                let n = st.selected.len() as int;
                assert(st2.selected[n] == (pid, w));
                assert forall|k: int|
                    0 <= k < deps.len() && (#[trigger] deps[k]).kind == DepKind::Required && deps[k].pid == q implies deps[k].vid
                    == Some(v) by {
                    assert(package_of(ctx, st2.selected[n].0, st2.selected[n].1).deps[k] == deps[k]);
                }
                lemma_apply_deps_pref(ctx, ss, pid, deps, q, v);
            }
        }
    }
}

proof fn lemma_run_prefix(ctx: RCtx, st: RState)
    requires
        wf(ctx, st),
    ensures
        run(ctx, st) matches Ok(fin) ==> st.selected.len() <= fin.selected.len() && forall|a: int|
            0 <= a < st.selected.len() ==> #[trigger] fin.selected[a] == st.selected[a],
    decreases unselected_measure(ctx, st), queue_measure(st),
{
    if st.head < st.queue.len() {
        lemma_step_progress(ctx, st);
        if let Ok(st2) = step(ctx, st) {
            lemma_run_prefix(ctx, st2);
            let pid = st.queue[st.head];
            if lookup(st.selected, pid) is None {
                let w = pick_version(ctx, st, pid)->0;
                let st1 = RState { head: st.head + 1, ..st };
                let ss = RState { selected: st.selected.push((pid, w)), ..st1 };
                lemma_apply_deps_frame(ctx, ss, pid, package_of(ctx, pid, w).deps);
                assert(st2.selected == st.selected.push((pid, w)));
                assert forall|a: int| 0 <= a < st.selected.len() implies st2.selected[a] == st.selected[a] by {}
            }
        }
    }
}

proof fn lemma_run_pref(ctx: RCtx, st: RState, q: Seq<char>, v: Seq<char>)
    requires
        wf(ctx, st),
        pref_inv(st, q, v),
        pin_of(ctx, q) is None,
        run(ctx, st) matches Ok(fin) ==> edges_name(ctx, fin.selected, q, v),
    ensures
        run(ctx, st) matches Ok(fin) ==> pref_inv(fin, q, v),
    decreases unselected_measure(ctx, st), queue_measure(st),
{
    if st.head < st.queue.len() {
        lemma_step_progress(ctx, st);
        if let Ok(st2) = step(ctx, st) {
            assert(run(ctx, st) == run(ctx, st2));
            lemma_run_prefix(ctx, st2);
            if let Ok(fin) = run(ctx, st2) {
                assert forall|a: int, k: int|
                    0 <= a < st2.selected.len() && 0 <= k < package_of(ctx, st2.selected[a].0, st2.selected[a].1).deps.len()
                        && (#[trigger] package_of(ctx, st2.selected[a].0, st2.selected[a].1).deps[k]).kind == DepKind::Required
                        && package_of(ctx, st2.selected[a].0, st2.selected[a].1).deps[k].pid == q implies package_of(
                    ctx,
                    st2.selected[a].0,
                    st2.selected[a].1,
                ).deps[k].vid == Some(v) by {
                    assert(fin.selected[a] == st2.selected[a]);
                    assert(package_of(ctx, fin.selected[a].0, fin.selected[a].1).deps[k].kind == DepKind::Required);
                }
                lemma_step_pref(ctx, st, q, v);
                lemma_run_pref(ctx, st2, q, v);
            }
        }
    }
}

proof fn lemma_deps_no_mismatch(ctx: RCtx, sel: Assoc, cur: Seq<char>, deps: Seq<DepV>, q: Seq<char>, v: Seq<char>)
    requires
        lookup(sel, q) == Some(v),
        forall|k: int|
            0 <= k < deps.len() && (#[trigger] deps[k]).kind == DepKind::Required && deps[k].pid == q ==> deps[k].vid
                == Some(v),
    ensures
        forall|j: int|
            0 <= j < deps_mismatches(ctx, sel, cur, deps).len() && (#[trigger] deps_mismatches(ctx, sel, cur, deps)[j]).pid
                == q ==> deps_mismatches(ctx, sel, cur, deps)[j].reason == "incompatible dependency"@,
    decreases deps.len(),
{
    if deps.len() > 0 {
        let dl = deps.drop_last();
        assert forall|k: int|
            0 <= k < dl.len() && (#[trigger] dl[k]).kind == DepKind::Required && dl[k].pid == q implies dl[k].vid
            == Some(v) by {
            assert(dl[k] == deps[k]);
        }
        lemma_deps_no_mismatch(ctx, sel, cur, dl, q, v);
        let d = deps.last();
        assert(d == deps[deps.len() - 1]);
        let prev = deps_mismatches(ctx, sel, cur, dl);
        let m = mismatch_of(ctx, sel, d);
        let ic = incompat_of(sel, cur, d);
        assert(deps_mismatches(ctx, sel, cur, deps) == prev + (m + ic));
        if d.pid == q {
            assert(m.len() == 0);
        }
        assert forall|j: int|
            0 <= j < (prev + (m + ic)).len() && (#[trigger] (prev + (m + ic))[j]).pid == q implies (prev + (m
                + ic))[j].reason == "incompatible dependency"@ by {
            if j < prev.len() {
                assert((prev + (m + ic))[j] == prev[j]);
            } else if j < prev.len() + m.len() {
                assert((prev + (m + ic))[j] == m[j - prev.len()]);
            } else {
                assert((prev + (m + ic))[j] == ic[j - prev.len() - m.len()]);
            }
        }
    }
}

proof fn lemma_no_mismatch(ctx: RCtx, sel: Assoc, entries: Assoc, q: Seq<char>, v: Seq<char>)
    requires
        lookup(sel, q) == Some(v),
        edges_name(ctx, entries, q, v),
    ensures
        forall|j: int|
            0 <= j < mismatches(ctx, sel, entries).len() && (#[trigger] mismatches(ctx, sel, entries)[j]).pid == q
                ==> mismatches(ctx, sel, entries)[j].reason == "incompatible dependency"@,
    decreases entries.len(),
{
    if entries.len() > 0 {
        let d = entries.drop_last();
        assert forall|a: int, k: int|
            0 <= a < d.len() && 0 <= k < package_of(ctx, d[a].0, d[a].1).deps.len() && (#[trigger] package_of(
                ctx,
                d[a].0,
                d[a].1,
            ).deps[k]).kind == DepKind::Required && package_of(ctx, d[a].0, d[a].1).deps[k].pid == q implies package_of(
            ctx,
            d[a].0,
            d[a].1,
        ).deps[k].vid == Some(v) by {
            assert(d[a] == entries[a]);
            assert(package_of(ctx, entries[a].0, entries[a].1).deps[k].kind == DepKind::Required);
        }
        lemma_no_mismatch(ctx, sel, d, q, v);
        let e = entries.last();
        let n = entries.len() - 1;
        assert(e == entries[n]);
        let deps = package_of(ctx, e.0, e.1).deps;
        assert forall|k: int|
            0 <= k < deps.len() && (#[trigger] deps[k]).kind == DepKind::Required && deps[k].pid == q implies deps[k].vid
            == Some(v) by {
            assert(package_of(ctx, entries[n].0, entries[n].1).deps[k] == deps[k]);
        }
        lemma_deps_no_mismatch(ctx, sel, e.0, deps, q, v);
        let prev = mismatches(ctx, sel, d);
        let last = deps_mismatches(ctx, sel, e.0, deps);
        assert(mismatches(ctx, sel, entries) == prev + last);
        assert forall|j: int|
            0 <= j < (prev + last).len() && (#[trigger] (prev + last)[j]).pid == q implies (prev + last)[j].reason
            == "incompatible dependency"@ by {
            if j < prev.len() {
                assert((prev + last)[j] == prev[j]);
            } else {
                assert((prev + last)[j] == last[j - prev.len()]);
            }
        }
    }
}

/// A dependency's requested version is honoured: when a selected package
/// requires project `q`, which is not pinned and which no root names, and
/// every required edge of the selected packages to `q` names version `v`,
/// then `q` is selected at `v` (not at its latest version), and no version
/// mismatch is reported for it (only incompatibilities can be).
pub proof fn law_requested_version_selected(ctx: RCtx, q: Seq<char>, v: Seq<char>, a: int, k: int)
    requires
        resolution(ctx) is Ok,
        lookup(ctx.pins, q) is None,
        forall|i: int| 0 <= i < ctx.roots.len() ==> (#[trigger] ctx.roots[i]).pid != q,
        0 <= a < resolution(ctx)->Ok_0.0.len(),
        ({
            let e = resolution(ctx)->Ok_0.0[a];
            let ds = package_of(ctx, e.0, e.1).deps;
            &&& 0 <= k < ds.len()
            &&& ds[k].kind == DepKind::Required
            &&& ds[k].pid == q
        }),
        edges_name(ctx, resolution(ctx)->Ok_0.0, q, v),
    ensures
        lookup(resolution(ctx)->Ok_0.0, q) == Some(v),
        forall|j: int|
            0 <= j < resolution(ctx)->Ok_0.1.len() && (#[trigger] resolution(ctx)->Ok_0.1[j]).pid == q
                ==> resolution(ctx)->Ok_0.1[j].reason == "incompatible dependency"@,
{
    let fin = lemma_final(ctx);
    lemma_root_prefs_none(ctx.roots, q);
    assert(pin_of(ctx, q) is None);
    let st0 = initial_state(ctx);
    if st0.queue.contains(q) {
        let j = choose|j: int| 0 <= j < st0.queue.len() && st0.queue[j] == q;
        assert(ctx.roots[j].pid == q);
    }
    assert(pref_inv(st0, q, v));
    lemma_run_pref(ctx, st0, q, v);
    assert(pref_inv(fin, q, v));
    law_required_closed(ctx, a, k);
    lemma_no_mismatch(ctx, fin.selected, fin.selected, q, v);
}

} // verus!
