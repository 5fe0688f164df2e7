//! The configuration records and where a project lives on its remote.
use crate::filters::{debug_text, first_pattern_error, pattern_verdict, transfers_ok, PatternVerdict};
use crate::schedule::{Schedule, ScheduleView};
use crate::seqs::{first_index, is_first, lemma_first_index_is, lemma_first_index_none, none_match};
use crate::text::{
    concat, copy_text, decimal, is_blank, lemma_trim_matches_shape, same_text, trim, trim_char,
    trim_matches,
};
use vstd::prelude::*;

verus! {

pub type Text = Seq<char>;

// ---------------------------------------------------------------------------
// Records.
#[derive(Debug, PartialEq, Eq)]
pub struct RemoteConfig {
    pub name: String,
    /// Base path on this remote: "proj" means projects live at `remote:proj/<name>`.
    pub base_path: String,
}

pub struct RemoteView {
    pub name: Text,
    pub base_path: Text,
}

impl View for RemoteConfig {
    type V = RemoteView;

    open spec fn view(&self) -> RemoteView {
        RemoteView { name: self.name@, base_path: self.base_path@ }
    }
}

impl Clone for RemoteConfig {
    fn clone(&self) -> (r: Self)
        ensures
            r@ == self@,
    {
        RemoteConfig { name: self.name.clone(), base_path: self.base_path.clone() }
    }
}

/// A shared cross-device record of a remote target that the owner explicitly
/// retired. It is keyed by the resolved target, not by project name or ID:
/// both can be reused after a project is removed.
#[derive(Debug, PartialEq, Eq)]
pub struct RetiredTarget {
    pub remote: String,
    pub remote_path: String,
    pub name_at_retirement: String,
    pub project_id_at_retirement: String,
    pub retired_at_ms: i64,
    pub retired_by_device: String,
}

pub struct RetiredView {
    pub remote: Text,
    pub remote_path: Text,
    pub name_at_retirement: Text,
    pub project_id_at_retirement: Text,
    pub retired_at_ms: i64,
    pub retired_by_device: Text,
}

impl View for RetiredTarget {
    type V = RetiredView;

    open spec fn view(&self) -> RetiredView {
        RetiredView {
            remote: self.remote@,
            remote_path: self.remote_path@,
            name_at_retirement: self.name_at_retirement@,
            project_id_at_retirement: self.project_id_at_retirement@,
            retired_at_ms: self.retired_at_ms,
            retired_by_device: self.retired_by_device@,
        }
    }
}

impl Clone for RetiredTarget {
    fn clone(&self) -> (r: Self)
        ensures
            r@ == self@,
    {
        RetiredTarget {
            remote: self.remote.clone(),
            remote_path: self.remote_path.clone(),
            name_at_retirement: self.name_at_retirement.clone(),
            project_id_at_retirement: self.project_id_at_retirement.clone(),
            retired_at_ms: self.retired_at_ms,
            retired_by_device: self.retired_by_device.clone(),
        }
    }
}

#[derive(Debug, PartialEq, Eq)]
pub struct Project {
    /// Stable identity used by device-local automation. The display name is
    /// mutable; schedules never follow a renamed project by name alone.
    pub id: String,
    pub name: String,
    pub local_path: String,
    pub remote_path: String,
    /// Which remote this project syncs with. Empty means the first remote.
    pub remote: String,
    /// Per-project excludes, applied in addition to the global ones.
    pub excludes: Vec<String>,
    /// The effective (device-local) schedule.
    pub schedule: Option<Schedule>,
    pub schedule_error: Option<String>,
    /// A schedule found in the shared config: kept only to offer an explicit
    /// one-time migration, never effective.
    pub legacy_schedule: Option<Schedule>,
    /// The raw JSON text of a shared legacy schedule, kept even when malformed
    /// so that ordinary saves do not erase it.
    pub legacy_schedule_raw: Option<String>,
}

pub struct ProjectView {
    pub id: Text,
    pub name: Text,
    pub local_path: Text,
    pub remote_path: Text,
    pub remote: Text,
    pub excludes: Seq<Text>,
    pub schedule: Option<ScheduleView>,
    pub schedule_error: Option<Text>,
    pub legacy_schedule: Option<ScheduleView>,
    pub legacy_schedule_raw: Option<Text>,
}

pub open spec fn sched_view(s: Option<Schedule>) -> Option<ScheduleView> {
    match s {
        Some(v) => Some(v@),
        None => None,
    }
}

pub open spec fn text_view(s: Option<String>) -> Option<Text> {
    match s {
        Some(v) => Some(v@),
        None => None,
    }
}

pub open spec fn texts(v: Seq<String>) -> Seq<Text> {
    v.map_values(|s: String| s@)
}

impl View for Project {
    type V = ProjectView;

    open spec fn view(&self) -> ProjectView {
        ProjectView {
            id: self.id@,
            name: self.name@,
            local_path: self.local_path@,
            remote_path: self.remote_path@,
            remote: self.remote@,
            excludes: texts(self.excludes@),
            schedule: sched_view(self.schedule),
            schedule_error: text_view(self.schedule_error),
            legacy_schedule: sched_view(self.legacy_schedule),
            legacy_schedule_raw: text_view(self.legacy_schedule_raw),
        }
    }
}

pub fn clone_strings(v: &Vec<String>) -> (r: Vec<String>)
    ensures
        texts(r@) == texts(v@),
{
    let mut out: Vec<String> = Vec::new();
    let mut i: usize = 0;
    while i < v.len()
        invariant
            i <= v.len(),
            out@.len() == i,
            forall|j: int| 0 <= j < i ==> (#[trigger] out@[j])@ == v@[j]@,
        decreases v.len() - i,
    {
        out.push(v[i].clone());
        i = i + 1;
    }
    assert(texts(out@) =~= texts(v@));
    out
}

pub fn clone_opt_string(o: &Option<String>) -> (r: Option<String>)
    ensures
        text_view(r) == text_view(*o),
{
    match o {
        Some(s) => Some(s.clone()),
        None => None,
    }
}

pub fn clone_opt_schedule(o: &Option<Schedule>) -> (r: Option<Schedule>)
    ensures
        sched_view(r) == sched_view(*o),
{
    match o {
        Some(s) => Some(s.clone()),
        None => None,
    }
}

impl Clone for Project {
    fn clone(&self) -> (r: Self)
        ensures
            r@ == self@,
    {
        Project {
            id: self.id.clone(),
            name: self.name.clone(),
            local_path: self.local_path.clone(),
            remote_path: self.remote_path.clone(),
            remote: self.remote.clone(),
            excludes: clone_strings(&self.excludes),
            schedule: clone_opt_schedule(&self.schedule),
            schedule_error: clone_opt_string(&self.schedule_error),
            legacy_schedule: clone_opt_schedule(&self.legacy_schedule),
            legacy_schedule_raw: clone_opt_string(&self.legacy_schedule_raw),
        }
    }
}

/// Public defaults, shipped with the app.
#[derive(Debug, PartialEq, Eq)]
pub struct Defaults {
    pub excludes: Vec<String>,
    pub scan_dirs: Vec<String>,
    pub default_pull_dir: String,
}

impl Default for Defaults {
    fn default() -> (r: Self)
        ensures
            r.excludes@.len() == 0,
            r.scan_dirs@.len() == 0,
            r.default_pull_dir@.len() == 0,
    {
        Defaults { excludes: Vec::new(), scan_dirs: Vec::new(), default_pull_dir: String::new() }
    }
}

/// The merged configuration the rest of the app works with.
#[derive(Debug, PartialEq, Eq)]
pub struct AppConfig {
    pub rclone_path: String,
    /// Active remote name (should match a name in `remotes`).
    pub remote: String,
    pub remotes: Vec<RemoteConfig>,
    /// Combined excludes: defaults, then user extras.
    pub excludes: Vec<String>,
    /// Which excludes come from the shipped defaults.
    pub default_excludes: Vec<String>,
    /// User-added excludes only.
    pub extra_excludes: Vec<String>,
    pub projects: Vec<Project>,
    pub retired_targets: Vec<RetiredTarget>,
    /// Set when the shared retirement records could not be read: every remote
    /// write then fails closed.
    pub retired_targets_unreadable: bool,
    pub scan_dirs: Vec<String>,
    /// Default directory for pulling new projects into.
    pub default_pull_dir: String,
    pub auto_check_on_launch: bool,
    pub queue_scheduled_pushes: bool,
    /// Number of valid or invalid schedules found in the shared legacy config.
    pub legacy_schedule_count: usize,
    /// Whether the shared config still holds the legacy queue policy.
    pub legacy_queue_policy: bool,
    pub legacy_host_config_available: bool,
    /// Raw legacy shared queue value kept across ordinary saves.
    pub legacy_queue_scheduled_pushes: Option<bool>,
    pub rclone_transfers: Option<i32>,
    /// Non-fatal config issues, for the UI and the log.
    pub config_warnings: Vec<String>,
}

pub open spec fn remote_views(v: Seq<RemoteConfig>) -> Seq<RemoteView> {
    v.map_values(|r: RemoteConfig| r@)
}

pub open spec fn project_views(v: Seq<Project>) -> Seq<ProjectView> {
    v.map_values(|p: Project| p@)
}

pub open spec fn retired_views(v: Seq<RetiredTarget>) -> Seq<RetiredView> {
    v.map_values(|t: RetiredTarget| t@)
}

pub fn clone_remotes(v: &Vec<RemoteConfig>) -> (r: Vec<RemoteConfig>)
    ensures
        remote_views(r@) == remote_views(v@),
{
    let mut out: Vec<RemoteConfig> = Vec::new();
    let mut i: usize = 0;
    while i < v.len()
        invariant
            i <= v.len(),
            out@.len() == i,
            forall|j: int| 0 <= j < i ==> (#[trigger] out@[j])@ == v@[j]@,
        decreases v.len() - i,
    {
        out.push(v[i].clone());
        i = i + 1;
    }
    assert(remote_views(out@) =~= remote_views(v@));
    out
}

pub fn clone_projects(v: &Vec<Project>) -> (r: Vec<Project>)
    ensures
        project_views(r@) == project_views(v@),
{
    let mut out: Vec<Project> = Vec::new();
    let mut i: usize = 0;
    while i < v.len()
        invariant
            i <= v.len(),
            out@.len() == i,
            forall|j: int| 0 <= j < i ==> (#[trigger] out@[j])@ == v@[j]@,
        decreases v.len() - i,
    {
        out.push(v[i].clone());
        i = i + 1;
    }
    assert(project_views(out@) =~= project_views(v@));
    out
}

pub fn clone_retired(v: &Vec<RetiredTarget>) -> (r: Vec<RetiredTarget>)
    ensures
        retired_views(r@) == retired_views(v@),
{
    let mut out: Vec<RetiredTarget> = Vec::new();
    let mut i: usize = 0;
    while i < v.len()
        invariant
            i <= v.len(),
            out@.len() == i,
            forall|j: int| 0 <= j < i ==> (#[trigger] out@[j])@ == v@[j]@,
        decreases v.len() - i,
    {
        out.push(v[i].clone());
        i = i + 1;
    }
    assert(retired_views(out@) =~= retired_views(v@));
    out
}

pub struct ConfigView {
    pub rclone_path: Text,
    pub remote: Text,
    pub remotes: Seq<RemoteView>,
    pub excludes: Seq<Text>,
    pub default_excludes: Seq<Text>,
    pub extra_excludes: Seq<Text>,
    pub projects: Seq<ProjectView>,
    pub retired_targets: Seq<RetiredView>,
    pub retired_targets_unreadable: bool,
    pub scan_dirs: Seq<Text>,
    pub default_pull_dir: Text,
    pub auto_check_on_launch: bool,
    pub queue_scheduled_pushes: bool,
    pub legacy_schedule_count: usize,
    pub legacy_queue_policy: bool,
    pub legacy_host_config_available: bool,
    pub legacy_queue_scheduled_pushes: Option<bool>,
    pub rclone_transfers: Option<i32>,
    pub config_warnings: Seq<Text>,
}

impl View for AppConfig {
    type V = ConfigView;

    open spec fn view(&self) -> ConfigView {
        ConfigView {
            rclone_path: self.rclone_path@,
            remote: self.remote@,
            remotes: remote_views(self.remotes@),
            excludes: texts(self.excludes@),
            default_excludes: texts(self.default_excludes@),
            extra_excludes: texts(self.extra_excludes@),
            projects: project_views(self.projects@),
            retired_targets: retired_views(self.retired_targets@),
            retired_targets_unreadable: self.retired_targets_unreadable,
            scan_dirs: texts(self.scan_dirs@),
            default_pull_dir: self.default_pull_dir@,
            auto_check_on_launch: self.auto_check_on_launch,
            queue_scheduled_pushes: self.queue_scheduled_pushes,
            legacy_schedule_count: self.legacy_schedule_count,
            legacy_queue_policy: self.legacy_queue_policy,
            legacy_host_config_available: self.legacy_host_config_available,
            legacy_queue_scheduled_pushes: self.legacy_queue_scheduled_pushes,
            rclone_transfers: self.rclone_transfers,
            config_warnings: texts(self.config_warnings@),
        }
    }
}

impl Clone for AppConfig {
    fn clone(&self) -> (r: Self)
        ensures
            r@ == self@,
    {
        AppConfig {
            rclone_path: self.rclone_path.clone(),
            remote: self.remote.clone(),
            remotes: clone_remotes(&self.remotes),
            excludes: clone_strings(&self.excludes),
            default_excludes: clone_strings(&self.default_excludes),
            extra_excludes: clone_strings(&self.extra_excludes),
            projects: clone_projects(&self.projects),
            retired_targets: clone_retired(&self.retired_targets),
            retired_targets_unreadable: self.retired_targets_unreadable,
            scan_dirs: clone_strings(&self.scan_dirs),
            default_pull_dir: self.default_pull_dir.clone(),
            auto_check_on_launch: self.auto_check_on_launch,
            queue_scheduled_pushes: self.queue_scheduled_pushes,
            legacy_schedule_count: self.legacy_schedule_count,
            legacy_queue_policy: self.legacy_queue_policy,
            legacy_host_config_available: self.legacy_host_config_available,
            legacy_queue_scheduled_pushes: self.legacy_queue_scheduled_pushes,
            rclone_transfers: self.rclone_transfers,
            config_warnings: clone_strings(&self.config_warnings),
        }
    }
}

// ---------------------------------------------------------------------------
// Defaults.
pub open spec fn default_rclone_path() -> Text {
    "rclone"@
}

pub open spec fn default_remote_name_text() -> Text {
    "gdrive"@
}

/// The one remote a fresh config knows: gdrive, at base path "proj".
pub fn default_remotes() -> (r: Vec<RemoteConfig>)
    ensures
        remote_views(r@) == seq![RemoteView { name: "gdrive"@, base_path: "proj"@ }],
{
    let mut v: Vec<RemoteConfig> = Vec::new();
    v.push(RemoteConfig { name: String::from_str("gdrive"), base_path: String::from_str("proj") });
    assert(remote_views(v@) =~= seq![RemoteView { name: "gdrive"@, base_path: "proj"@ }]);
    v
}

pub fn default_scan_dirs() -> (r: Vec<String>)
    ensures
        texts(r@) == seq!["~/projects"@],
{
    let mut v: Vec<String> = Vec::new();
    v.push(String::from_str("~/projects"));
    assert(texts(v@) =~= seq!["~/projects"@]);
    v
}

/// The scan directories in effect: the given ones, else the shipped
/// defaults, else `~/projects`.
pub open spec fn effective_scan_dirs(user: Seq<Text>, shipped: Seq<Text>) -> Seq<Text> {
    if user.len() > 0 {
        user
    } else if shipped.len() > 0 {
        shipped
    } else {
        seq!["~/projects"@]
    }
}

/// The pull directory in effect: the given one, else the shipped default,
/// else `~/projects`.
pub open spec fn effective_pull_dir(user: Text, shipped: Text) -> Text {
    if user.len() > 0 {
        user
    } else if shipped.len() > 0 {
        shipped
    } else {
        "~/projects"@
    }
}

impl AppConfig {
    /// The configuration of a fresh install: the shipped defaults, the one
    /// default remote, no projects.
    pub fn from_defaults(defaults: &Defaults) -> (r: AppConfig)
        ensures
            r@.rclone_path == default_rclone_path(),
            r@.remote == default_remote_name_text(),
            r@.remotes == seq![RemoteView { name: "gdrive"@, base_path: "proj"@ }],
            r@.excludes == texts(defaults.excludes@),
            r@.default_excludes == texts(defaults.excludes@),
            r@.extra_excludes.len() == 0,
            r@.projects.len() == 0,
            r@.retired_targets.len() == 0,
            !r@.retired_targets_unreadable,
            r@.scan_dirs == effective_scan_dirs(Seq::empty(), texts(defaults.scan_dirs@)),
            r@.default_pull_dir == effective_pull_dir(Seq::empty(), defaults.default_pull_dir@),
            !r@.auto_check_on_launch,
            r@.queue_scheduled_pushes,
            r@.legacy_schedule_count == 0,
            !r@.legacy_queue_policy,
            !r@.legacy_host_config_available,
            r@.legacy_queue_scheduled_pushes is None,
            r@.rclone_transfers is None,
            r@.config_warnings.len() == 0,
    {
        let scan_dirs = if defaults.scan_dirs.len() == 0 {
            default_scan_dirs()
        } else {
            clone_strings(&defaults.scan_dirs)
        };
        let default_pull_dir = if defaults.default_pull_dir.as_str().is_empty() {
            String::from_str("~/projects")
        } else {
            defaults.default_pull_dir.clone()
        };
        AppConfig {
            rclone_path: String::from_str("rclone"),
            remote: String::from_str("gdrive"),
            remotes: default_remotes(),
            excludes: clone_strings(&defaults.excludes),
            default_excludes: clone_strings(&defaults.excludes),
            extra_excludes: Vec::new(),
            projects: Vec::new(),
            retired_targets: Vec::new(),
            retired_targets_unreadable: false,
            scan_dirs,
            default_pull_dir,
            auto_check_on_launch: false,
            queue_scheduled_pushes: true,
            legacy_schedule_count: 0,
            legacy_queue_policy: false,
            legacy_host_config_available: false,
            legacy_queue_scheduled_pushes: None,
            rclone_transfers: None,
            config_warnings: Vec::new(),
        }
    }
}

impl Default for AppConfig {
    /// A fresh configuration with no shipped defaults file.
    fn default() -> (r: Self)
        ensures
            r@.rclone_path == default_rclone_path(),
            r@.remote == default_remote_name_text(),
            r@.remotes == seq![RemoteView { name: "gdrive"@, base_path: "proj"@ }],
            r@.excludes.len() == 0,
            r@.default_excludes.len() == 0,
            r@.extra_excludes.len() == 0,
            r@.projects.len() == 0,
            r@.retired_targets.len() == 0,
            !r@.retired_targets_unreadable,
            r@.scan_dirs == seq!["~/projects"@],
            r@.default_pull_dir == "~/projects"@,
            !r@.auto_check_on_launch,
            r@.queue_scheduled_pushes,
            r@.legacy_schedule_count == 0,
            !r@.legacy_queue_policy,
            !r@.legacy_host_config_available,
            r@.legacy_queue_scheduled_pushes is None,
            r@.rclone_transfers is None,
            r@.config_warnings.len() == 0,
    {
        let d = Defaults { excludes: Vec::new(), scan_dirs: Vec::new(), default_pull_dir: String::new() };
        AppConfig::from_defaults(&d)
    }
}

// ---------------------------------------------------------------------------
// Remote targets.
/// `path.trim_matches('/')`: only slash delimiters are normalized; whitespace
/// and every other character stay significant to the remote backend.
pub open spec fn canonical(path: Text) -> Text {
    trim_matches(path, '/')
}

/// A remote base path joined with one immediate child.
pub open spec fn join_child(base: Text, child: Text) -> Text {
    let b = canonical(base);
    let c = canonical(child);
    if b.len() == 0 {
        c
    } else if c.len() == 0 {
        b
    } else {
        b + seq!['/'] + c
    }
}

pub open spec fn named(name: Text) -> spec_fn(RemoteView) -> bool {
    |r: RemoteView| r.name == name
}

/// The configured remote called `name`; an unknown name uses base path "proj".
pub open spec fn remote_named(remotes: Seq<RemoteView>, name: Text) -> RemoteView {
    match first_index(remotes, named(name)) {
        Some(i) => remotes[i],
        None => RemoteView { name, base_path: "proj"@ },
    }
}

/// The default remote: the first configured one, else the active name.
pub open spec fn default_remote_of(c: ConfigView) -> Text {
    if c.remotes.len() > 0 {
        c.remotes[0].name
    } else {
        c.remote
    }
}

/// The remote a project uses: its own, or the default one when unset.
pub open spec fn project_remote_of(c: ConfigView, p: ProjectView) -> RemoteView {
    let name = if p.remote.len() == 0 {
        default_remote_of(c)
    } else {
        p.remote
    };
    remote_named(c.remotes, name)
}

/// Where a project lives on its remote: an explicit path (slashes at either
/// end stripped), else the remote's base path joined with the project name.
pub open spec fn project_path_of(c: ConfigView, p: ProjectView) -> Text {
    if p.remote_path.len() == 0 {
        join_child(project_remote_of(c, p).base_path, p.name)
    } else {
        canonical(p.remote_path)
    }
}

/// The full `remote:path` target.
pub open spec fn remote_location_of(c: ConfigView, p: ProjectView) -> Text {
    project_remote_of(c, p).name + seq![':'] + project_path_of(c, p)
}

pub open spec fn retires(remote: Text, path: Text) -> spec_fn(RetiredView) -> bool {
    |t: RetiredView| t.remote == remote && canonical(t.remote_path) == path
}

/// The index of the retirement record that matches the project's resolved
/// target, if any.
pub open spec fn retired_index_of(c: ConfigView, p: ProjectView) -> Option<int> {
    first_index(c.retired_targets, retires(project_remote_of(c, p).name, project_path_of(c, p)))
}

pub open spec fn retired_message(t: RetiredView) -> Text {
    "Remote target "@ + t.remote + ":"@ + t.remote_path + " was retired on "@
        + t.retired_by_device + ". Reattach it explicitly before writing again."@
}

pub open spec fn unreadable_retirement_message() -> Text {
    "Shared retired-target safety records are unreadable; remote writes are disabled until the config is repaired"@
}

/// Canonicalizing a remote path twice changes nothing more than once.
pub proof fn law_canonical_path_is_idempotent(path: Text)
    ensures
        canonical(canonical(path)) == canonical(path),
{
    lemma_trim_matches_shape(path, '/');
    lemma_trim_matches_shape(canonical(path), '/');
}

/// A joined child path is already canonical, and so is every resolved
/// project path: the path a project resolves to is a fixed point of
/// canonicalization.
pub proof fn law_resolved_paths_are_canonical(c: ConfigView, p: ProjectView, base: Text, child: Text)
    ensures
        canonical(join_child(base, child)) == join_child(base, child),
        canonical(project_path_of(c, p)) == project_path_of(c, p),
{
    let b = canonical(base);
    let d = canonical(child);
    lemma_trim_matches_shape(base, '/');
    lemma_trim_matches_shape(child, '/');
    let j = join_child(base, child);
    if b.len() > 0 && d.len() > 0 {
        assert(j[0] == b[0]);
        assert(j.last() == d.last());
    }
    if b.len() == 0 {
        law_canonical_path_is_idempotent(child);
    } else if d.len() == 0 {
        law_canonical_path_is_idempotent(base);
    }
    lemma_trim_matches_shape(j, '/');
    let pb = project_remote_of(c, p).base_path;
    lemma_trim_matches_shape(pb, '/');
    lemma_trim_matches_shape(p.name, '/');
    let pj = join_child(pb, p.name);
    if canonical(pb).len() > 0 && canonical(p.name).len() > 0 {
        assert(pj[0] == canonical(pb)[0]);
        assert(pj.last() == canonical(p.name).last());
    }
    if canonical(pb).len() == 0 {
        law_canonical_path_is_idempotent(p.name);
    } else if canonical(p.name).len() == 0 {
        law_canonical_path_is_idempotent(pb);
    }
    lemma_trim_matches_shape(pj, '/');
    law_canonical_path_is_idempotent(p.remote_path);
}

/// Remove every leading and trailing '/'.
pub fn canonical_remote_path(path: &str) -> (r: String)
    ensures
        r@ == canonical(path@),
{
    trim_char(path, '/')
}

/// Join a remote base path and one immediate child without changing the
/// child's identity.
pub fn join_remote_child_path(base_path: &str, child: &str) -> (r: String)
    ensures
        r@ == join_child(base_path@, child@),
{
    let base = canonical_remote_path(base_path);
    let child = canonical_remote_path(child);
    if base.as_str().is_empty() {
        child
    } else if child.as_str().is_empty() {
        base
    } else {
        let with_slash = concat(base.as_str(), "/");
        proof {
            reveal_strlit("/");
        }
        concat(with_slash.as_str(), child.as_str())
    }
}

fn find_remote(remotes: &Vec<RemoteConfig>, name: &str) -> (r: Option<usize>)
    ensures
        match r {
            Some(i) => i < remotes@.len() && first_index(remote_views(remotes@), named(name@)) == Some(
                i as int,
            ),
            None => first_index(remote_views(remotes@), named(name@)) is None,
        },
{
    let ghost rs = remote_views(remotes@);
    let mut i: usize = 0;
    while i < remotes.len()
        invariant
            i <= remotes.len(),
            rs == remote_views(remotes@),
            forall|j: int| 0 <= j < i ==> !named(name@)(#[trigger] rs[j]),
        decreases remotes.len() - i,
    {
        if same_text(remotes[i].name.as_str(), name) {
            proof {
                lemma_first_index_is(rs, named(name@), i as int);
            }
            return Some(i);
        }
        i = i + 1;
    }
    proof {
        lemma_first_index_none(rs, named(name@));
    }
    None
}

impl AppConfig {
    /// The configured remote called `name`, or one at base path "proj".
    pub fn get_remote(&self, name: &str) -> (r: RemoteConfig)
        ensures
            r@ == remote_named(self@.remotes, name@),
    {
        match find_remote(&self.remotes, name) {
            Some(i) => self.remotes[i].clone(),
            None => RemoteConfig { name: copy_text(name), base_path: String::from_str("proj") },
        }
    }

    /// The active remote's config; an unknown active name uses base path "proj".
    pub fn active_remote(&self) -> (r: RemoteConfig)
        ensures
            r@ == remote_named(self@.remotes, self@.remote),
    {
        self.get_remote(self.remote.as_str())
    }

    /// The default remote name: the first one in the list.
    pub fn default_remote_name(&self) -> (r: String)
        ensures
            r@ == default_remote_of(self@),
    {
        if self.remotes.len() > 0 {
            self.remotes[0].name.clone()
        } else {
            self.remote.clone()
        }
    }

    /// The remote a project uses; unset means the default remote.
    pub fn project_remote(&self, project: &Project) -> (r: RemoteConfig)
        ensures
            r@ == project_remote_of(self@, project@),
    {
        if project.remote.as_str().is_empty() {
            let name = self.default_remote_name();
            self.get_remote(name.as_str())
        } else {
            self.get_remote(project.remote.as_str())
        }
    }

    /// The path portion of a project's target, without the `remote:` prefix.
    pub fn project_remote_path(&self, project: &Project) -> (r: String)
        ensures
            r@ == project_path_of(self@, project@),
    {
        if project.remote_path.as_str().is_empty() {
            let remote = self.project_remote(project);
            join_remote_child_path(remote.base_path.as_str(), project.name.as_str())
        } else {
            canonical_remote_path(project.remote_path.as_str())
        }
    }

    /// The full rclone `remote:path` of a project.
    pub fn remote_path_for_project(&self, project: &Project) -> (r: String)
        ensures
            r@ == remote_location_of(self@, project@),
    {
        let remote = self.project_remote(project);
        let path = self.project_remote_path(project);
        let prefix = concat(remote.name.as_str(), ":");
        proof {
            reveal_strlit(":");
        }
        concat(prefix.as_str(), path.as_str())
    }

    /// The retirement record that matches the exact remote target rclone
    /// would use for this project, if any.
    pub fn retired_target_for(&self, project: &Project) -> (r: Option<&RetiredTarget>)
        ensures
            match r {
                Some(t) => retired_index_of(self@, project@) matches Some(i) && t@
                    == self@.retired_targets[i],
                None => retired_index_of(self@, project@) is None,
            },
    {
        let remote = self.project_remote(project);
        let path = self.project_remote_path(project);
        let ghost ts = retired_views(self.retired_targets@);
        let ghost p = retires(remote@.name, path@);
        let mut i: usize = 0;
        while i < self.retired_targets.len()
            invariant
                i <= self.retired_targets.len(),
                ts == retired_views(self.retired_targets@),
                p == retires(remote@.name, path@),
                remote@ == project_remote_of(self@, project@),
                path@ == project_path_of(self@, project@),
                forall|j: int| 0 <= j < i ==> !p(#[trigger] ts[j]),
            decreases self.retired_targets.len() - i,
        {
            let t = &self.retired_targets[i];
            let cp = canonical_remote_path(t.remote_path.as_str());
            if same_text(t.remote.as_str(), remote.name.as_str()) && same_text(
                cp.as_str(),
                path.as_str(),
            ) {
                proof {
                    lemma_first_index_is(ts, p, i as int);
                }
                return Some(t);
            }
            i = i + 1;
        }
        proof {
            lemma_first_index_none(ts, p);
        }
        None
    }

    /// Gate every operation that can write to a remote: unreadable retirement
    /// records and a retired target both refuse.
    pub fn ensure_remote_target_writable(&self, project: &Project) -> (r: Result<(), String>)
        ensures
            r is Ok <==> !self@.retired_targets_unreadable && retired_index_of(self@, project@) is None,
            self@.retired_targets_unreadable ==> r == Err::<(), String>(r->Err_0) && r->Err_0@
                == unreadable_retirement_message(),
            !self@.retired_targets_unreadable && retired_index_of(self@, project@) is Some ==> r is Err
                && r->Err_0@ == retired_message(
                self@.retired_targets[retired_index_of(self@, project@)->0],
            ),
    {
        if self.retired_targets_unreadable {
            return Err(
                String::from_str(
                    "Shared retired-target safety records are unreadable; remote writes are disabled until the config is repaired",
                ),
            );
        }
        match self.retired_target_for(project) {
            Some(target) => {
                let a = concat("Remote target ", target.remote.as_str());
                let b = concat(a.as_str(), ":");
                let c = concat(b.as_str(), target.remote_path.as_str());
                let d = concat(c.as_str(), " was retired on ");
                let e = concat(d.as_str(), target.retired_by_device.as_str());
                let f = concat(e.as_str(), ". Reattach it explicitly before writing again.");
                Err(f)
            },
            None => Ok(()),
        }
    }
}

} // verus!
