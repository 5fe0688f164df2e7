//! The shared (portable) user config, and how it is merged with the shipped
//! defaults and this device's automation layer into the config the app uses.
use crate::automation::{local_views, LocalAutomationConfig, LocalSchedule, LocalScheduleView};
use crate::filters::{first_pattern_error, transfers_message, transfers_ok, validate_excludes, validate_rclone_transfers};
use crate::identity::{fresh_id_text, law_fresh_ids_are_not_field_ids, law_fresh_ids_differ_in_serial, project_id_for_fields, project_id_text, record_hash, IdSource};
use crate::model::{
    clone_remotes, clone_retired, clone_strings, effective_pull_dir, effective_scan_dirs,
    canonical, canonical_remote_path, clone_projects, project_path_of, project_remote_of, retires, project_views, remote_views, retired_views, texts,
    text_view, unreadable_retirement_message, AppConfig, ConfigView,
    Defaults, Project, ProjectView, RemoteConfig, RemoteView, RetiredTarget, RetiredView, Text,
};
use crate::schedule::{valid, validation_error, Schedule, ScheduleView};
use crate::seqs::dup_list;
use crate::text::{concat, concat3, contains_text, copy_text, is_blank, same_text, trim};
use vstd::prelude::*;
use vstd::utf8::encode_utf8;

verus! {

broadcast use vstd::seq_lib::group_seq_properties;

/// The private, portable user config as stored.
#[derive(Debug, PartialEq, Eq)]
pub struct UserConfig {
    pub rclone_path: String,
    pub remote: String,
    pub remotes: Vec<RemoteConfig>,
    pub projects: Vec<Project>,
    /// Shared retirement intent: unlike schedules, it roams with the project
    /// definitions so that another device can block a stale copy.
    pub retired_targets: Vec<RetiredTarget>,
    /// Set when the retirement field could not be parsed; never stored.
    pub retired_targets_unreadable: bool,
    pub scan_dirs: Vec<String>,
    pub default_pull_dir: String,
    pub auto_check_on_launch: bool,
    /// Legacy shared queue policy: kept until an explicit migration consumes
    /// it, never used by the scheduler.
    pub queue_scheduled_pushes: Option<bool>,
    /// User-added excludes, merged with the shipped ones.
    pub extra_excludes: Vec<String>,
    /// Parallel transfers per rclone process; `None` means Automatic.
    pub rclone_transfers: Option<i32>,
}

pub struct UserView {
    pub rclone_path: Text,
    pub remote: Text,
    pub remotes: Seq<RemoteView>,
    pub projects: Seq<ProjectView>,
    pub retired_targets: Seq<RetiredView>,
    pub retired_targets_unreadable: bool,
    pub scan_dirs: Seq<Text>,
    pub default_pull_dir: Text,
    pub auto_check_on_launch: bool,
    pub queue_scheduled_pushes: Option<bool>,
    pub extra_excludes: Seq<Text>,
    pub rclone_transfers: Option<i32>,
}

impl View for UserConfig {
    type V = UserView;

    open spec fn view(&self) -> UserView {
        UserView {
            rclone_path: self.rclone_path@,
            remote: self.remote@,
            remotes: remote_views(self.remotes@),
            projects: project_views(self.projects@),
            retired_targets: retired_views(self.retired_targets@),
            retired_targets_unreadable: self.retired_targets_unreadable,
            scan_dirs: texts(self.scan_dirs@),
            default_pull_dir: self.default_pull_dir@,
            auto_check_on_launch: self.auto_check_on_launch,
            queue_scheduled_pushes: self.queue_scheduled_pushes,
            extra_excludes: texts(self.extra_excludes@),
            rclone_transfers: self.rclone_transfers,
        }
    }
}

impl Clone for UserConfig {
    fn clone(&self) -> (r: Self)
        ensures
            r@ == self@,
    {
        UserConfig {
            rclone_path: self.rclone_path.clone(),
            remote: self.remote.clone(),
            remotes: clone_remotes(&self.remotes),
            projects: clone_projects(&self.projects),
            retired_targets: clone_retired(&self.retired_targets),
            retired_targets_unreadable: self.retired_targets_unreadable,
            scan_dirs: clone_strings(&self.scan_dirs),
            default_pull_dir: self.default_pull_dir.clone(),
            auto_check_on_launch: self.auto_check_on_launch,
            queue_scheduled_pushes: self.queue_scheduled_pushes,
            extra_excludes: clone_strings(&self.extra_excludes),
            rclone_transfers: self.rclone_transfers,
        }
    }
}

impl Default for UserConfig {
    /// The user config of a fresh install: rclone from PATH, the one default
    /// remote, nothing else.
    fn default() -> (r: Self)
        ensures
            r@ == UserConfig::default_view(),
            r@.rclone_path == "rclone"@,
            r@.remote == "gdrive"@,
            r@.remotes == seq![RemoteView { name: "gdrive"@, base_path: "proj"@ }],
            r@.projects.len() == 0,
            r@.retired_targets.len() == 0,
            !r@.retired_targets_unreadable,
            r@.scan_dirs.len() == 0,
            r@.default_pull_dir.len() == 0,
            !r@.auto_check_on_launch,
            r@.queue_scheduled_pushes is None,
            r@.extra_excludes.len() == 0,
            r@.rclone_transfers is None,
    {
        proof {
            reveal_strlit("rclone");
            reveal_strlit("gdrive");
        }
        let r = UserConfig {
            rclone_path: String::from_str("rclone"),
            remote: String::from_str("gdrive"),
            remotes: crate::model::default_remotes(),
            projects: Vec::new(),
            retired_targets: Vec::new(),
            retired_targets_unreadable: false,
            scan_dirs: Vec::new(),
            default_pull_dir: String::new(),
            auto_check_on_launch: false,
            queue_scheduled_pushes: None,
            extra_excludes: Vec::new(),
            rclone_transfers: None,
        };
        assert(r@.projects =~= Seq::<ProjectView>::empty());
        assert(r@.retired_targets =~= Seq::<RetiredView>::empty());
        assert(r@.scan_dirs =~= Seq::<Text>::empty());
        assert(r@.extra_excludes =~= Seq::<Text>::empty());
        assert(r@.default_pull_dir =~= Seq::<char>::empty());
        r
    }
}

impl UserConfig {
    /// The view of `UserConfig::default()`.
    pub open spec fn default_view() -> UserView {
        UserView {
            rclone_path: "rclone"@,
            remote: "gdrive"@,
            remotes: seq![RemoteView { name: "gdrive"@, base_path: "proj"@ }],
            projects: Seq::empty(),
            retired_targets: Seq::empty(),
            retired_targets_unreadable: false,
            scan_dirs: Seq::empty(),
            default_pull_dir: Seq::empty(),
            auto_check_on_launch: false,
            queue_scheduled_pushes: None,
            extra_excludes: Seq::empty(),
            rclone_transfers: None,
        }
    }
}

// ---------------------------------------------------------------------------
// Loading.
/// The ID a stored record is loaded under: its own, or for an old record with
/// none, the stable bootstrap ID derived from its fields.
pub open spec fn bootstrap_id(p: ProjectView) -> Text {
    if trim(p.id).len() == 0 {
        project_id_text(
            record_hash(
                encode_utf8(p.name),
                encode_utf8(p.local_path),
                encode_utf8(p.remote_path),
                encode_utf8(p.remote),
            ),
        )
    } else {
        p.id
    }
}

pub open spec fn loaded_ids(ps: Seq<ProjectView>) -> Seq<Text> {
    ps.map_values(|p: ProjectView| bootstrap_id(p))
}

/// What loading reports about a project's shared (legacy) schedule.
pub open spec fn project_load_warning(p: ProjectView) -> Seq<Text> {
    match p.schedule_error {
        Some(e) => seq!["Project '"@ + p.name + "': "@ + e],
        None => if p.legacy_schedule_raw is Some {
            seq![
                "Project '"@ + p.name
                    + "': shared legacy schedule is disabled; move it to this device from the Schedules manager"@,
            ]
        } else {
            Seq::empty()
        },
    }
}

pub open spec fn project_load_warnings(ps: Seq<ProjectView>) -> Seq<Text>
    decreases ps.len(),
{
    if ps.len() == 0 {
        Seq::empty()
    } else {
        project_load_warnings(ps.drop_last()) + project_load_warning(ps.last())
    }
}

pub open spec fn has_legacy_schedule(p: ProjectView) -> bool {
    p.schedule_error is Some || p.legacy_schedule_raw is Some
}

/// The number of projects whose shared config holds a (valid or invalid)
/// legacy schedule.
pub open spec fn legacy_count(ps: Seq<ProjectView>) -> nat
    decreases ps.len(),
{
    if ps.len() == 0 {
        0
    } else {
        legacy_count(ps.drop_last()) + if has_legacy_schedule(ps.last()) {
            1nat
        } else {
            0nat
        }
    }
}

pub open spec fn shared_duplicate_warning(id: Text) -> Text {
    "Duplicate shared project ID '"@ + id + "'; device-local automation for that ID is inactive"@
}

/// The schedule this device attaches to a project ID: the last local entry
/// for it.
pub open spec fn attached(ls: Seq<LocalScheduleView>, id: Text) -> Option<ScheduleView>
    decreases ls.len(),
{
    if ls.len() == 0 {
        None
    } else if ls.last().project_id == id {
        Some(ls.last().schedule)
    } else {
        attached(ls.drop_last(), id)
    }
}

/// What loading reports about one local schedule.
pub open spec fn attach_warning(l: LocalScheduleView, ids: Seq<Text>, dups: Seq<Text>) -> Seq<Text> {
    if dups.contains(l.project_id) {
        seq![
            "Device-local schedule for '"@ + l.last_seen_name
                + "' is inactive because its shared project ID is duplicated"@,
        ]
    } else if ids.contains(l.project_id) {
        Seq::empty()
    } else {
        seq![
            "Device-local schedule for '"@ + l.last_seen_name
                + "' has no matching project and is inactive"@,
        ]
    }
}

pub open spec fn attach_warnings(ls: Seq<LocalScheduleView>, ids: Seq<Text>, dups: Seq<Text>) -> Seq<Text>
    decreases ls.len(),
{
    if ls.len() == 0 {
        Seq::empty()
    } else {
        attach_warnings(ls.drop_last(), ids, dups) + attach_warning(ls.last(), ids, dups)
    }
}

/// A stored record as loaded, before local schedules are attached: its
/// bootstrap ID, no effective schedule, the parse error reported.
pub open spec fn loaded_base(p: ProjectView) -> ProjectView {
    ProjectView { id: bootstrap_id(p), schedule: None, schedule_error: None, ..p }
}

/// A stored record as loaded: a schedule from this device's layer is attached
/// by ID, and never to a project whose ID is duplicated.
pub open spec fn loaded_project(p: ProjectView, dups: Seq<Text>, ls: Seq<LocalScheduleView>) -> ProjectView {
    let id = bootstrap_id(p);
    ProjectView {
        id,
        schedule: if dups.contains(id) {
            None
        } else {
            attached(ls, id)
        },
        schedule_error: None,
        ..p
    }
}

pub open spec fn loaded_projects(ps: Seq<ProjectView>, ls: Seq<LocalScheduleView>) -> Seq<ProjectView> {
    let dups = dup_list(loaded_ids(ps));
    ps.map_values(|p: ProjectView| loaded_project(p, dups, ls))
}

/// The shipped excludes followed by each user extra not already present.
pub open spec fn merged_excludes(base: Seq<Text>, extra: Seq<Text>) -> Seq<Text>
    decreases extra.len(),
{
    if extra.len() == 0 {
        base
    } else {
        let m = merged_excludes(base, extra.drop_last());
        if m.contains(extra.last()) {
            m
        } else {
            m.push(extra.last())
        }
    }
}

/// Default excludes are always applied: the merged filter list begins with
/// every shipped pattern, in order, and holds every user extra as well.
pub proof fn law_defaults_are_always_applied(base: Seq<Text>, extra: Seq<Text>)
    ensures
        merged_excludes(base, extra).len() >= base.len(),
        merged_excludes(base, extra).subrange(0, base.len() as int) == base,
        forall|i: int| 0 <= i < extra.len() ==> merged_excludes(base, extra).contains(#[trigger] extra[i]),
    decreases extra.len(),
{
    if extra.len() > 0 {
        let rest = extra.drop_last();
        law_defaults_are_always_applied(base, rest);
        let m = merged_excludes(base, rest);
        let r = merged_excludes(base, extra);
        if !m.contains(extra.last()) {
            assert(r == m.push(extra.last()));
            assert(r.subrange(0, base.len() as int) =~= m.subrange(0, base.len() as int));
            assert(r[m.len() as int] == extra.last());
        }
        assert forall|i: int| 0 <= i < extra.len() implies r.contains(#[trigger] extra[i]) by {
            if i < extra.len() - 1 {
                assert(rest[i] == extra[i]);
                assert(m.contains(rest[i]));
                let k = choose|k: int| 0 <= k < m.len() && m[k] == rest[i];
                assert(r[k] == extra[i]);
            } else {
                if m.contains(extra.last()) {
                    let k = choose|k: int| 0 <= k < m.len() && m[k] == extra.last();
                    assert(r[k] == extra[i]);
                } else {
                    assert(r[m.len() as int] == extra[i]);
                }
            }
        }
    }
}

/// All warnings of a load, in order: those given (reading the files), one
/// per legacy schedule, one per duplicated project ID, one per local schedule
/// that is not attached.
pub open spec fn load_warnings_of(given: Seq<Text>, ps: Seq<ProjectView>, ls: Seq<LocalScheduleView>) -> Seq<Text> {
    let ids = loaded_ids(ps);
    let dups = dup_list(ids);
    given + project_load_warnings(ps) + dups.map_values(|d: Text| shared_duplicate_warning(d))
        + attach_warnings(ls, ids, dups)
}

fn bootstrap_project(p: &Project) -> (r: Project)
    ensures
        r@ == loaded_base(p@),
{
    let mut q = p.clone();
    if is_blank(q.id.as_str()) {
        q.id = project_id_for_fields(
            q.name.as_str(),
            q.local_path.as_str(),
            q.remote_path.as_str(),
            q.remote.as_str(),
        );
    }
    q.schedule = None;
    q.schedule_error = None;
    q
}

fn has_project_id(v: &Vec<Project>, id: &str) -> (r: bool)
    ensures
        r == project_views(v@).map_values(|p: ProjectView| p.id).contains(id@),
{
    let ghost ids = project_views(v@).map_values(|p: ProjectView| p.id);
    let mut i: usize = 0;
    while i < v.len()
        invariant
            i <= v.len(),
            ids == project_views(v@).map_values(|p: ProjectView| p.id),
            forall|j: int| 0 <= j < i ==> ids[j] != id@,
        decreases v.len() - i,
    {
        if same_text(v[i].id.as_str(), id) {
            assert(ids[i as int] == id@);
            return true;
        }
        i = i + 1;
    }
    false
}

fn load_warning_of(p: &Project) -> (r: Option<String>)
    ensures
        match r {
            Some(w) => project_load_warning(p@) == seq![w@],
            None => project_load_warning(p@) == Seq::<Text>::empty(),
        },
{
    match &p.schedule_error {
        Some(e) => {
            let a = concat3("Project '", p.name.as_str(), "': ");
            proof {
                reveal_strlit("Project '");
                reveal_strlit("': ");
            }
            Some(concat(a.as_str(), e.as_str()))
        },
        None => if p.legacy_schedule_raw.is_some() {
            proof {
                reveal_strlit("Project '");
                reveal_strlit(
                    "': shared legacy schedule is disabled; move it to this device from the Schedules manager",
                );
            }
            Some(
                concat3(
                    "Project '",
                    p.name.as_str(),
                    "': shared legacy schedule is disabled; move it to this device from the Schedules manager",
                ),
            )
        } else {
            None
        },
    }
}

/// The projects as stored, loaded: bootstrap IDs, reports about legacy
/// schedules, and the list of duplicated IDs.
fn load_projects(stored: &Vec<Project>, warnings: &mut Vec<String>) -> (r: (Vec<Project>, usize, Vec<String>))
    ensures
        project_views(r.0@) == project_views(stored@).map_values(|p: ProjectView| loaded_base(p)),
        r.1 == legacy_count(project_views(stored@)),
        texts(r.2@) == dup_list(loaded_ids(project_views(stored@))),
        texts(final(warnings)@) == texts(old(warnings)@) + project_load_warnings(project_views(stored@)),
{
    let ghost ps = project_views(stored@);
    let ghost w0 = texts(warnings@);
    let mut out: Vec<Project> = Vec::new();
    let mut count: usize = 0;
    let mut dups: Vec<String> = Vec::new();
    let mut i: usize = 0;
    while i < stored.len()
        invariant
            i <= stored.len(),
            ps == project_views(stored@),
            project_views(out@) == ps.take(i as int).map_values(|p: ProjectView| loaded_base(p)),
            count == legacy_count(ps.take(i as int)),
            count <= i,
            texts(dups@) == dup_list(loaded_ids(ps.take(i as int))),
            texts(warnings@) == w0 + project_load_warnings(ps.take(i as int)),
        decreases stored.len() - i,
    {
        let ghost before = ps.take(i as int);
        assert(ps.take(i + 1).drop_last() =~= before);
        assert(ps.take(i + 1).last() == ps[i as int]);
        let q = bootstrap_project(&stored[i]);
        let seen = has_project_id(&out, q.id.as_str());
        let listed = contains_text(&dups, q.id.as_str());
        let ghost ids_before = loaded_ids(before);
        assert(project_views(out@).map_values(|p: ProjectView| p.id) =~= ids_before);
        assert(loaded_ids(ps.take(i + 1)) =~= ids_before.push(q@.id));
        assert(loaded_ids(ps.take(i + 1)).drop_last() =~= ids_before);
        if seen && !listed {
            dups.push(copy_text(q.id.as_str()));
        }
        assert(texts(dups@) =~= dup_list(loaded_ids(ps.take(i + 1))));
        let ghost w_before = texts(warnings@);
        match load_warning_of(&stored[i]) {
            Some(w) => {
                warnings.push(w);
                assert(texts(warnings@) =~= w_before + project_load_warning(ps[i as int]));
            },
            None => {
                assert(texts(warnings@) =~= w_before + project_load_warning(ps[i as int]));
            },
        }
        if stored[i].schedule_error.is_some() || stored[i].legacy_schedule_raw.is_some() {
            count = count + 1;
        }
        let ghost prev_out = project_views(out@);
        out.push(q);
        assert(project_views(out@) =~= prev_out.push(loaded_base(ps[i as int])));
        assert(ps.take(i + 1).map_values(|p: ProjectView| loaded_base(p)) =~= ps.take(
            i as int,
        ).map_values(|p: ProjectView| loaded_base(p)).push(loaded_base(ps[i as int])));
        i = i + 1;
    }
    assert(ps.take(stored.len() as int) =~= ps);
    (out, count, dups)
}

/// Merge the shipped defaults, the stored user config and this device's
/// automation layer into the config the app uses. `warnings` are those of
/// reading the files; `legacy_host_config_available` tells whether an old
/// host-specific config waits for an explicit conversion.
///
/// Shared schedules are never effective: schedules come from the local layer
/// only, attached by project ID, and never to an ID that two projects share.
pub fn merge_config(
    defaults: &Defaults,
    user: &UserConfig,
    local: &LocalAutomationConfig,
    warnings: Vec<String>,
    legacy_host_config_available: bool,
) -> (r: AppConfig)
    ensures
        r@ == (ConfigView {
            rclone_path: user@.rclone_path,
            remote: user@.remote,
            remotes: user@.remotes,
            excludes: merged_excludes(texts(defaults.excludes@), user@.extra_excludes),
            default_excludes: texts(defaults.excludes@),
            extra_excludes: user@.extra_excludes,
            projects: loaded_projects(user@.projects, local@.schedules),
            retired_targets: user@.retired_targets,
            retired_targets_unreadable: user@.retired_targets_unreadable,
            scan_dirs: effective_scan_dirs(user@.scan_dirs, texts(defaults.scan_dirs@)),
            default_pull_dir: effective_pull_dir(user@.default_pull_dir, defaults.default_pull_dir@),
            auto_check_on_launch: user@.auto_check_on_launch,
            queue_scheduled_pushes: local@.queue_scheduled_pushes,
            legacy_schedule_count: legacy_count(user@.projects) as usize,
            legacy_queue_policy: user@.queue_scheduled_pushes is Some,
            legacy_host_config_available,
            legacy_queue_scheduled_pushes: user@.queue_scheduled_pushes,
            rclone_transfers: user@.rclone_transfers,
            config_warnings: load_warnings_of(texts(warnings@), user@.projects, local@.schedules),
        }),
{
    let mut warnings = warnings;
    let ghost w0 = texts(warnings@);
    let ghost ps = user@.projects;
    let ghost ls = local@.schedules;
    let (mut projects, legacy, dups) = load_projects(&user.projects, &mut warnings);
    let ghost ids = loaded_ids(ps);
    let ghost d = texts(dups@);
    assert(project_views(projects@).map_values(|p: ProjectView| p.id) =~= ids);
    // One warning per duplicated ID.
    let ghost w1 = texts(warnings@);
    let mut m: usize = 0;
    while m < dups.len()
        invariant
            m <= dups.len(),
            d == texts(dups@),
            texts(warnings@) == w1 + d.take(m as int).map_values(|x: Text| shared_duplicate_warning(x)),
        decreases dups.len() - m,
    {
        let w = concat3(
            "Duplicate shared project ID '",
            dups[m].as_str(),
            "'; device-local automation for that ID is inactive",
        );
        proof {
            reveal_strlit("Duplicate shared project ID '");
            reveal_strlit("'; device-local automation for that ID is inactive");
        }
        let ghost prev = texts(warnings@);
        warnings.push(w);
        assert(texts(warnings@) =~= prev.push(shared_duplicate_warning(d[m as int])));
        assert(d.take(m + 1).map_values(|x: Text| shared_duplicate_warning(x)) =~= d.take(
            m as int,
        ).map_values(|x: Text| shared_duplicate_warning(x)).push(shared_duplicate_warning(d[m as int])));
        m = m + 1;
    }
    assert(d.take(dups.len() as int) =~= d);
    // Attach the local schedules by ID.
    let ghost w2 = texts(warnings@);
    let n = projects.len();
    let mut k: usize = 0;
    while k < local.schedules.len()
        invariant
            k <= local.schedules.len(),
            ls == local@.schedules,
            n == projects.len(),
            n == ps.len(),
            d == texts(dups@),
            d == dup_list(ids),
            ids == loaded_ids(ps),
            project_views(projects@).map_values(|p: ProjectView| p.id) == ids,
            forall|j: int| 0 <= j < n ==> (#[trigger] project_views(projects@)[j]) == (ProjectView {
                schedule: if d.contains(ids[j]) {
                    None
                } else {
                    attached(ls.take(k as int), ids[j])
                },
                ..loaded_base(ps[j])
            }),
            texts(warnings@) == w2 + attach_warnings(ls.take(k as int), ids, d),
        decreases local.schedules.len() - k,
    {
        let entry = &local.schedules[k];
        let ghost lk = ls.take(k as int);
        assert(ls.take(k + 1).drop_last() =~= lk);
        assert(ls.take(k + 1).last() == entry@);
        let ghost prev = texts(warnings@);
        if contains_text(&dups, entry.project_id.as_str()) {
            let w = concat3(
                "Device-local schedule for '",
                entry.last_seen_name.as_str(),
                "' is inactive because its shared project ID is duplicated",
            );
            proof {
                reveal_strlit("Device-local schedule for '");
                reveal_strlit("' is inactive because its shared project ID is duplicated");
            }
            warnings.push(w);
            assert(texts(warnings@) =~= prev + attach_warning(entry@, ids, d));
            assert forall|j: int| 0 <= j < n implies (#[trigger] project_views(projects@)[j]) == (ProjectView {
                schedule: if d.contains(ids[j]) {
                    None
                } else {
                    attached(ls.take(k + 1), ids[j])
                },
                ..loaded_base(ps[j])
            }) by {
                if !d.contains(ids[j]) {
                    assert(ids[j] != entry@.project_id);
                }
            }
        } else {
            let mut found = false;
            let mut j: usize = 0;
            while j < projects.len()
                invariant
                    j <= n,
                    n == projects.len(),
                    n == ps.len(),
                    ids == loaded_ids(ps),
                    !d.contains(entry@.project_id),
                    ls.take(k + 1).len() > 0,
                    ls.take(k + 1).drop_last() == ls.take(k as int),
                    ls.take(k + 1).last() == entry@,
                    project_views(projects@).map_values(|p: ProjectView| p.id) == ids,
                    found == ids.take(j as int).contains(entry@.project_id),
                    forall|t: int| 0 <= t < n ==> (#[trigger] project_views(projects@)[t]) == (ProjectView {
                        schedule: if d.contains(ids[t]) {
                            None
                        } else if t < j {
                            attached(ls.take(k + 1), ids[t])
                        } else {
                            attached(ls.take(k as int), ids[t])
                        },
                        ..loaded_base(ps[t])
                    }),
                decreases n - j,
            {
                assert(ids.take(j + 1) =~= ids.take(j as int).push(ids[j as int]));
                assert(project_views(projects@)[j as int].id == ids[j as int]);
                if same_text(projects[j].id.as_str(), entry.project_id.as_str()) {
                    let ghost pv = project_views(projects@);
                    let mut p = projects[j].clone();
                    p.schedule = Some(entry.schedule.clone());
                    projects.set(j, p);
                    found = true;
                    assert(project_views(projects@) =~= pv.update(j as int, ProjectView {
                        schedule: Some(entry@.schedule),
                        ..pv[j as int]
                    }));
                    assert(project_views(projects@).map_values(|p: ProjectView| p.id) =~= ids);
                }
                j = j + 1;
            }
            assert(ids.take(n as int) =~= ids);
            if !found {
                let w = concat3(
                    "Device-local schedule for '",
                    entry.last_seen_name.as_str(),
                    "' has no matching project and is inactive",
                );
                proof {
                    reveal_strlit("Device-local schedule for '");
                    reveal_strlit("' has no matching project and is inactive");
                }
                warnings.push(w);
            }
            assert(texts(warnings@) =~= prev + attach_warning(entry@, ids, d));
        }
        k = k + 1;
    }
    assert(ls.take(local.schedules.len() as int) =~= ls);
    assert(project_views(projects@) =~= loaded_projects(ps, ls));
    // Excludes: the shipped ones, then each user extra not already present.
    let mut excludes = clone_strings(&defaults.excludes);
    let ghost base = texts(defaults.excludes@);
    let ghost extra = user@.extra_excludes;
    let mut e: usize = 0;
    while e < user.extra_excludes.len()
        invariant
            e <= user.extra_excludes.len(),
            extra == texts(user.extra_excludes@),
            texts(excludes@) == merged_excludes(base, extra.take(e as int)),
        decreases user.extra_excludes.len() - e,
    {
        assert(extra.take(e + 1).drop_last() =~= extra.take(e as int));
        assert(extra.take(e + 1).last() == extra[e as int]);
        if !contains_text(&excludes, user.extra_excludes[e].as_str()) {
            let ghost prev = texts(excludes@);
            excludes.push(user.extra_excludes[e].clone());
            assert(texts(excludes@) =~= prev.push(extra[e as int]));
        }
        e = e + 1;
    }
    assert(extra.take(user.extra_excludes.len() as int) =~= extra);
    let scan_dirs = if user.scan_dirs.len() > 0 {
        clone_strings(&user.scan_dirs)
    } else if defaults.scan_dirs.len() > 0 {
        clone_strings(&defaults.scan_dirs)
    } else {
        crate::model::default_scan_dirs()
    };
    let default_pull_dir = if !user.default_pull_dir.as_str().is_empty() {
        user.default_pull_dir.clone()
    } else if !defaults.default_pull_dir.as_str().is_empty() {
        defaults.default_pull_dir.clone()
    } else {
        proof {
            reveal_strlit("~/projects");
        }
        String::from_str("~/projects")
    };
    let r = AppConfig {
        rclone_path: user.rclone_path.clone(),
        remote: user.remote.clone(),
        remotes: clone_remotes(&user.remotes),
        excludes,
        default_excludes: clone_strings(&defaults.excludes),
        extra_excludes: clone_strings(&user.extra_excludes),
        projects,
        retired_targets: clone_retired(&user.retired_targets),
        retired_targets_unreadable: user.retired_targets_unreadable,
        scan_dirs,
        default_pull_dir,
        auto_check_on_launch: user.auto_check_on_launch,
        queue_scheduled_pushes: local.queue_scheduled_pushes,
        legacy_schedule_count: legacy,
        legacy_queue_policy: user.queue_scheduled_pushes.is_some(),
        legacy_host_config_available,
        legacy_queue_scheduled_pushes: user.queue_scheduled_pushes,
        rclone_transfers: user.rclone_transfers,
        config_warnings: warnings,
    };
    assert(r@.config_warnings =~= load_warnings_of(w0, ps, ls));
    r
}

// ---------------------------------------------------------------------------
// Saving.
/// Why a project cannot be saved: its first refused exclude, else its
/// invalid schedule.
pub open spec fn project_save_error(p: ProjectView) -> Option<Text> {
    match first_pattern_error(p.excludes) {
        Some(e) => Some(e),
        None => match p.schedule {
            Some(s) => validation_error(s),
            None => None,
        },
    }
}

/// The first project that cannot be saved decides.
pub open spec fn projects_save_error(ps: Seq<ProjectView>) -> Option<Text>
    decreases ps.len(),
{
    if ps.len() == 0 {
        None
    } else {
        match projects_save_error(ps.drop_last()) {
            Some(e) => Some(e),
            None => project_save_error(ps.last()),
        }
    }
}

/// Why a config cannot be saved, checked in this order: unreadable
/// retirement records, the transfer setting, the user excludes, the projects.
pub open spec fn save_error(c: ConfigView) -> Option<Text> {
    if c.retired_targets_unreadable {
        Some(unreadable_retirement_message())
    } else if !transfers_ok(c.rclone_transfers) {
        Some(transfers_message(c.rclone_transfers->0))
    } else if first_pattern_error(c.extra_excludes) is Some {
        first_pattern_error(c.extra_excludes)
    } else {
        projects_save_error(c.projects)
    }
}

pub open spec fn is_fresh_id(id: Text) -> bool {
    exists|nonce: u64, serial: u64| id == fresh_id_text(nonce, serial)
}

/// A project as stored: a blank ID replaced by a fresh one, an explicit
/// remote path canonicalized, no effective schedule (schedules live in the
/// device-local layer).
pub open spec fn saved_project(p: ProjectView, stored: ProjectView) -> bool {
    &&& stored == (ProjectView {
        id: stored.id,
        remote_path: if p.remote_path.len() == 0 {
            p.remote_path
        } else {
            canonical(p.remote_path)
        },
        schedule: None,
        schedule_error: None,
        ..p
    })
    &&& if trim(p.id).len() == 0 {
        is_fresh_id(stored.id)
    } else {
        stored.id == p.id
    }
}

pub open spec fn saved_target(t: RetiredView) -> RetiredView {
    RetiredView { remote_path: canonical(t.remote_path), ..t }
}

fn save_project_check(p: &Project) -> (r: Result<(), String>)
    ensures
        match r {
            Ok(_) => project_save_error(p@) is None,
            Err(e) => project_save_error(p@) == Some(e@),
        },
{
    validate_excludes(p.excludes.as_slice())?;
    match &p.schedule {
        Some(s) => s.validate(),
        None => Ok(()),
    }
}

/// Turn the app's config into the user config to store, refusing (with the
/// first reason, see `save_error`) a config that must not be written.
pub fn prepare_user_config(cfg: &AppConfig, ids: &mut IdSource) -> (r: Result<UserConfig, String>)
    ensures
        match r {
            Err(e) => save_error(cfg@) == Some(e@),
            Ok(u) => {
                &&& save_error(cfg@) is None
                &&& u@.rclone_path == cfg@.rclone_path
                &&& u@.remote == cfg@.remote
                &&& u@.remotes == cfg@.remotes
                &&& u@.projects.len() == cfg@.projects.len()
                &&& forall|j: int| 0 <= j < cfg@.projects.len() ==> saved_project(
                    cfg@.projects[j],
                    #[trigger] u@.projects[j],
                )
                &&& u@.retired_targets == cfg@.retired_targets.map_values(
                    |t: RetiredView| saved_target(t),
                )
                &&& !u@.retired_targets_unreadable
                &&& u@.scan_dirs == cfg@.scan_dirs
                &&& u@.default_pull_dir == cfg@.default_pull_dir
                &&& u@.auto_check_on_launch == cfg@.auto_check_on_launch
                &&& u@.queue_scheduled_pushes == cfg@.legacy_queue_scheduled_pushes
                &&& u@.extra_excludes == cfg@.extra_excludes
                &&& u@.rclone_transfers == cfg@.rclone_transfers
            },
        },
{
    if cfg.retired_targets_unreadable {
        proof {
            reveal_strlit(
                "Shared retired-target safety records are unreadable; remote writes are disabled until the config is repaired",
            );
        }
        return Err(
            String::from_str(
                "Shared retired-target safety records are unreadable; remote writes are disabled until the config is repaired",
            ),
        );
    }
    validate_rclone_transfers(cfg.rclone_transfers)?;
    validate_excludes(cfg.extra_excludes.as_slice())?;
    let ghost ps = cfg@.projects;
    let mut i: usize = 0;
    while i < cfg.projects.len()
        invariant
            i <= cfg.projects.len(),
            ps == cfg@.projects,
            projects_save_error(ps.take(i as int)) is None,
            !cfg@.retired_targets_unreadable,
            transfers_ok(cfg@.rclone_transfers),
            first_pattern_error(cfg@.extra_excludes) is None,
        decreases cfg.projects.len() - i,
    {
        assert(ps.take(i + 1).drop_last() =~= ps.take(i as int));
        assert(ps.take(i + 1).last() == ps[i as int]);
        match save_project_check(&cfg.projects[i]) {
            Ok(_) => {},
            Err(e) => {
                proof {
                    lemma_save_error_prefix(ps, i as int);
                }
                return Err(e);
            },
        }
        i = i + 1;
    }
    assert(ps.take(cfg.projects.len() as int) =~= ps);
    let mut projects: Vec<Project> = Vec::new();
    let mut j: usize = 0;
    while j < cfg.projects.len()
        invariant
            j <= cfg.projects.len(),
            ps == cfg@.projects,
            projects@.len() == j,
            forall|t: int| 0 <= t < j ==> saved_project(ps[t], #[trigger] project_views(projects@)[t]),
        decreases cfg.projects.len() - j,
    {
        let mut p = cfg.projects[j].clone();
        if is_blank(p.id.as_str()) {
            p.id = ids.fresh();
        }
        if !p.remote_path.as_str().is_empty() {
            p.remote_path = canonical_remote_path(p.remote_path.as_str());
        }
        p.schedule = None;
        p.schedule_error = None;
        let ghost prev = project_views(projects@);
        projects.push(p);
        assert(project_views(projects@) =~= prev.push(p@));
        j = j + 1;
    }
    let mut targets: Vec<RetiredTarget> = Vec::new();
    let ghost ts = cfg@.retired_targets;
    let mut k: usize = 0;
    while k < cfg.retired_targets.len()
        invariant
            k <= cfg.retired_targets.len(),
            ts == cfg@.retired_targets,
            retired_views(targets@) == ts.take(k as int).map_values(|t: RetiredView| saved_target(t)),
        decreases cfg.retired_targets.len() - k,
    {
        let mut t = cfg.retired_targets[k].clone();
        t.remote_path = canonical_remote_path(t.remote_path.as_str());
        let ghost prev = retired_views(targets@);
        targets.push(t);
        assert(retired_views(targets@) =~= prev.push(saved_target(ts[k as int])));
        assert(ts.take(k + 1).map_values(|t: RetiredView| saved_target(t)) =~= ts.take(
            k as int,
        ).map_values(|t: RetiredView| saved_target(t)).push(saved_target(ts[k as int])));
        k = k + 1;
    }
    assert(ts.take(cfg.retired_targets.len() as int) =~= ts);
    Ok(
        UserConfig {
            rclone_path: cfg.rclone_path.clone(),
            remote: cfg.remote.clone(),
            remotes: clone_remotes(&cfg.remotes),
            projects,
            retired_targets: targets,
            retired_targets_unreadable: false,
            scan_dirs: clone_strings(&cfg.scan_dirs),
            default_pull_dir: cfg.default_pull_dir.clone(),
            auto_check_on_launch: cfg.auto_check_on_launch,
            queue_scheduled_pushes: cfg.legacy_queue_scheduled_pushes,
            extra_excludes: clone_strings(&cfg.extra_excludes),
            rclone_transfers: cfg.rclone_transfers,
        },
    )
}

proof fn lemma_save_error_prefix(ps: Seq<ProjectView>, i: int)
    requires
        0 <= i < ps.len(),
        projects_save_error(ps.take(i)) is None,
    ensures
        projects_save_error(ps.take(i + 1)) == project_save_error(ps[i]),
        project_save_error(ps[i]) is Some ==> projects_save_error(ps) == project_save_error(ps[i]),
    decreases ps.len() - i,
{
    assert(ps.take(i + 1).drop_last() =~= ps.take(i));
    if project_save_error(ps[i]) is Some {
        lemma_save_error_extends(ps, i + 1);
    }
}

proof fn lemma_save_error_extends(ps: Seq<ProjectView>, n: int)
    requires
        0 < n <= ps.len(),
        projects_save_error(ps.take(n)) is Some,
    ensures
        projects_save_error(ps) == projects_save_error(ps.take(n)),
    decreases ps.len() - n,
{
    if n < ps.len() {
        assert(ps.take(n + 1).drop_last() =~= ps.take(n));
        lemma_save_error_extends(ps, n + 1);
    } else {
        assert(ps.take(n) =~= ps);
    }
}

/// The stored form is written only when the retirement records are known:
/// an unreadable list must never be replaced by an empty one.
pub fn check_user_config_writable(user: &UserConfig) -> (r: Result<(), String>)
    ensures
        r is Ok <==> !user@.retired_targets_unreadable,
        r matches Err(e) ==> e@
            == "Shared retired-target safety records are unreadable; config writes are disabled until the config is repaired"@,
{
    if user.retired_targets_unreadable {
        proof {
            reveal_strlit(
                "Shared retired-target safety records are unreadable; config writes are disabled until the config is repaired",
            );
        }
        Err(
            String::from_str(
                "Shared retired-target safety records are unreadable; config writes are disabled until the config is repaired",
            ),
        )
    } else {
        Ok(())
    }
}

// ---------------------------------------------------------------------------
// Replacing the Settings-owned parts.
pub open spec fn has_id(id: Text) -> spec_fn(ProjectView) -> bool {
    |c: ProjectView| c.id == id
}

pub open spec fn duplicated_selection_message(id: Text) -> Text {
    "Settings payload project ID '"@ + id + "' is duplicated"@
}

/// Which current record a Settings row stands for. Only an exact, unique,
/// not yet claimed ID matches: a name never does, and a blank ID is a new
/// row. Two current records with the row's ID are an error.
pub open spec fn match_index(current: Seq<ProjectView>, p: ProjectView, retained: Seq<Text>) -> Result<
    Option<int>,
    Text,
> {
    if trim(p.id).len() == 0 || retained.contains(p.id) {
        Ok(None)
    } else {
        let n = current.filter(has_id(p.id)).len();
        if n == 0 {
            Ok(None)
        } else if n == 1 {
            Ok(crate::seqs::first_index(current, has_id(p.id)))
        } else {
            Err(duplicated_selection_message(p.id))
        }
    }
}

/// The IDs of the current records already claimed by earlier rows.
pub open spec fn retained_ids(current: Seq<ProjectView>, ms: Seq<Option<int>>) -> Seq<Text>
    decreases ms.len(),
{
    if ms.len() == 0 {
        Seq::empty()
    } else {
        match ms.last() {
            Some(i) => retained_ids(current, ms.drop_last()).push(current[i].id),
            None => retained_ids(current, ms.drop_last()),
        }
    }
}

/// The match of every Settings row, in order, or the first error.
pub open spec fn settings_rows(current: Seq<ProjectView>, ps: Seq<ProjectView>) -> Result<
    Seq<Option<int>>,
    Text,
>
    decreases ps.len(),
{
    if ps.len() == 0 {
        Ok(Seq::empty())
    } else {
        match settings_rows(current, ps.drop_last()) {
            Err(e) => Err(e),
            Ok(ms) => match match_index(current, ps.last(), retained_ids(current, ms)) {
                Err(e) => Err(e),
                Ok(m) => Ok(ms.push(m)),
            },
        }
    }
}

/// A row that matched keeps the current record and takes only its name from
/// Settings: every other project field has its own editor, and a stale
/// Settings window must not undo a concurrent edit.
pub open spec fn merged_row(p: ProjectView, cur: ProjectView) -> ProjectView {
    ProjectView { name: p.name, ..cur }
}

/// A new row gets a new identity and no schedule of any kind.
pub open spec fn new_row(p: ProjectView, id: Text) -> ProjectView {
    ProjectView {
        id,
        schedule: None,
        schedule_error: None,
        legacy_schedule: None,
        legacy_schedule_raw: None,
        ..p
    }
}

pub open spec fn duplicate_payload_message(id: Text) -> Text {
    "Settings payload contains duplicate project ID '"@ + id + "'"@
}

/// Match one Settings row to the current record without treating the mutable
/// name as an identity (`retained` holds the IDs already claimed).
pub fn settings_current_match<'a>(
    current: &'a Vec<Project>,
    submitted: &Project,
    retained: &Vec<String>,
) -> (r: Result<Option<&'a Project>, String>)
    ensures
        match match_index(project_views(current@), submitted@, texts(retained@)) {
            Err(e) => r matches Err(x) && x@ == e,
            Ok(None) => r matches Ok(None),
            Ok(Some(i)) => r matches Ok(Some(c)) && 0 <= i < current@.len() && c@ == project_views(current@)[i],
        },
{
    let ghost cs = project_views(current@);
    if is_blank(submitted.id.as_str()) || contains_text(retained, submitted.id.as_str()) {
        return Ok(None);
    }
    let ghost pred = has_id(submitted@.id);
    let mut count: usize = 0;
    let mut first: usize = 0;
    let mut j: usize = 0;
    while j < current.len()
        invariant
            j <= current.len(),
            cs == project_views(current@),
            pred == has_id(submitted@.id),
            count == cs.take(j as int).filter(pred).len(),
            count <= j,
            count > 0 ==> first < j && crate::seqs::is_first(cs, pred, first as int),
            count == 0 ==> forall|t: int| 0 <= t < j ==> !pred(#[trigger] cs[t]),
        decreases current.len() - j,
    {
        proof {
            assert(cs.take(j + 1) =~= cs.take(j as int).push(cs[j as int]));
            cs.take(j as int).lemma_filter_push(cs[j as int], pred);
        }
        if same_text(current[j].id.as_str(), submitted.id.as_str()) {
            if count == 0 {
                first = j;
            }
            count = count + 1;
        }
        j = j + 1;
    }
    assert(cs.take(current.len() as int) =~= cs);
    if count == 0 {
        Ok(None)
    } else if count == 1 {
        proof {
            crate::seqs::lemma_first_index_is(cs, pred, first as int);
        }
        Ok(Some(&current[first]))
    } else {
        proof {
            reveal_strlit("Settings payload project ID '");
            reveal_strlit("' is duplicated");
        }
        Err(concat3("Settings payload project ID '", submitted.id.as_str(), "' is duplicated"))
    }
}

/// The serial number drawn `o` draws after `start`, the counter wrapping
/// at the top of its range.
pub open spec fn drawn_serial(start: u64, o: int) -> int {
    if start + o <= u64::MAX {
        start + o
    } else {
        start + o - 0x1_0000_0000_0000_0000
    }
}

/// `id` is a fresh ID drawn with the serial `o` draws after `start`.
pub open spec fn fresh_at(id: Text, start: u64, o: int) -> bool {
    exists|nonce: u64| id == #[trigger] fresh_id_text(nonce, drawn_serial(start, o) as u64)
}

/// The config to save when Settings submits `submitted` while `before` is on
/// disk. Shared retirement records and the legacy queue value always come
/// from `before`; each project row is matched by ID alone. A row that
/// matched keeps the current record (only its name changes); every other row
/// is a new record with a fresh ID and no schedule, so that deleting and
/// re-adding an identical row can never revive the old record's schedule.
pub fn merge_settings(before: &AppConfig, submitted: &AppConfig, ids: &mut IdSource) -> (r: Result<
    AppConfig,
    String,
>)
    ensures
        ({
            let current = before@.projects;
            let ps = submitted@.projects;
            match settings_rows(current, ps) {
                Err(e) => r matches Err(x) && x@ == e,
                Ok(ms) => match r {
                    Err(x) => (exists|id: Text| x@ == duplicate_payload_message(id)) && (exists|j: int|
                        0 <= j < ps.len() && #[trigger] ms[j] is None) && exists|k: int|
                        0 <= k < ps.len() && #[trigger] ms[k] is Some && is_fresh_id(current[ms[k]->0].id),
                    Ok(c) => {
                        &&& c@ == (ConfigView {
                            projects: c@.projects,
                            legacy_queue_scheduled_pushes: before@.legacy_queue_scheduled_pushes,
                            retired_targets: before@.retired_targets,
                            retired_targets_unreadable: before@.retired_targets_unreadable,
                            ..submitted@
                        })
                        &&& c@.projects.len() == ps.len()
                        &&& forall|j: int| 0 <= j < ps.len() ==> match ms[j] {
                            Some(i) => 0 <= i < current.len() && #[trigger] c@.projects[j]
                                == merged_row(ps[j], current[i]),
                            None => c@.projects[j] == new_row(ps[j], c@.projects[j].id)
                                && is_fresh_id(c@.projects[j].id),
                        }
                        &&& c@.projects.map_values(|p: ProjectView| p.id).no_duplicates()
                    },
                },
            }
        }),
{
    let ghost current = before@.projects;
    let ghost ps = submitted@.projects;
    let mut rows: Vec<Project> = Vec::new();
    let mut retained: Vec<String> = Vec::new();
    let ghost mut ms: Seq<Option<int>> = Seq::empty();
    let ghost start: u64 = ids.serial;
    let ghost mut drawn: int = 0;
    let ghost mut offs: Seq<int> = Seq::empty();
    let mut i: usize = 0;
    while i < submitted.projects.len()
        invariant
            i <= submitted.projects.len(),
            0 <= drawn <= i,
            ids.serial == drawn_serial(start, drawn),
            offs.len() == i,
            forall|j: int|
                #![trigger offs[j]]
                0 <= j < i && ms[j] is None ==> 0 <= offs[j] < drawn && fresh_at(
                    project_views(rows@)[j].id,
                    start,
                    offs[j],
                ),
            forall|a: int, b: int|
                0 <= a < b < i && ms[a] is None && ms[b] is None ==> #[trigger] offs[a] < #[trigger] offs[b],
            current == before@.projects,
            ps == submitted@.projects,
            settings_rows(current, ps.take(i as int)) == Ok::<Seq<Option<int>>, Text>(ms),
            ms.len() == i,
            texts(retained@) == retained_ids(current, ms),
            rows@.len() == i,
            forall|j: int| 0 <= j < i ==> match ms[j] {
                Some(k) => 0 <= k < current.len() && #[trigger] project_views(rows@)[j]
                    == merged_row(ps[j], current[k]),
                None => project_views(rows@)[j] == new_row(ps[j], project_views(rows@)[j].id)
                    && is_fresh_id(project_views(rows@)[j].id),
            },
        decreases submitted.projects.len() - i,
    {
        assert(ps.take(i + 1).drop_last() =~= ps.take(i as int));
        assert(ps.take(i + 1).last() == ps[i as int]);
        let p = &submitted.projects[i];
        let found = settings_current_match(&before.projects, p, &retained);
        match found {
            Err(e) => {
                proof {
                    lemma_settings_rows_err(current, ps, i as int);
                }
                return Err(e);
            },
            Ok(m) => {
                let ghost prev_rows = project_views(rows@);
                let ghost prev_ms = ms;
                match m {
                    Some(cur) => {
                        let ghost k = match_index(current, ps[i as int], texts(retained@))->Ok_0->0;
                        let mut row = cur.clone();
                        row.name = p.name.clone();
                        retained.push(cur.id.clone());
                        rows.push(row);
                        proof {
                            ms = ms.push(Some(k));
                            offs = offs.push(0);
                            assert(ms.drop_last() =~= prev_ms);
                            assert(texts(retained@) =~= retained_ids(current, prev_ms).push(current[k].id));
                        }
                    },
                    None => {
                        let mut row = p.clone();
                        let ghost serial_before = ids.serial;
                        let fid = ids.fresh();
                        let ghost fidv = fid@;
                        row.id = fid;
                        row.schedule = None;
                        row.schedule_error = None;
                        row.legacy_schedule = None;
                        row.legacy_schedule_raw = None;
                        rows.push(row);
                        proof {
                            ms = ms.push(None);
                            offs = offs.push(drawn);
                            assert(drawn_serial(start, drawn) == serial_before);
                            let nonce = choose|nonce: u64| fidv == #[trigger] fresh_id_text(nonce, serial_before);
                            assert(project_views(rows@)[i as int].id == fidv);
                            assert(fidv == fresh_id_text(nonce, drawn_serial(start, offs[i as int]) as u64));
                            drawn = drawn + 1;
                            assert(ms.drop_last() =~= prev_ms);
                            assert(texts(retained@) =~= retained_ids(current, ms));
                            let id = project_views(rows@)[i as int].id;
                            assert(is_fresh_id(id));
                        }
                    },
                }
                proof {
                    assert(project_views(rows@).take(i as int) =~= prev_rows);
                    assert forall|j: int|
                        #![trigger offs[j]]
                        0 <= j < i + 1 && ms[j] is None implies 0 <= offs[j] < drawn && fresh_at(
                            project_views(rows@)[j].id,
                            start,
                            offs[j],
                        ) by {
                        if j < i {
                            assert(project_views(rows@)[j] == prev_rows[j]);
                            assert(ms[j] == prev_ms[j]);
                        }
                    }
                    assert forall|a: int, b: int|
                        0 <= a < b < i + 1 && ms[a] is None && ms[b] is None implies #[trigger] offs[a]
                        < #[trigger] offs[b] by {
                        assert(ms[a] == prev_ms[a]);
                        if b < i {
                            assert(ms[b] == prev_ms[b]);
                        }
                    }
                    assert forall|j: int| 0 <= j < i + 1 implies match ms[j] {
                        Some(k) => 0 <= k < current.len() && #[trigger] project_views(rows@)[j]
                            == merged_row(ps[j], current[k]),
                        None => project_views(rows@)[j] == new_row(ps[j], project_views(rows@)[j].id)
                            && is_fresh_id(project_views(rows@)[j].id),
                    } by {
                        if j < i {
                            assert(project_views(rows@)[j] == prev_rows[j]);
                            assert(ms[j] == prev_ms[j]);
                        }
                    }
                }
            },
        }
        i = i + 1;
    }
    assert(ps.take(submitted.projects.len() as int) =~= ps);
    // Every project ID of the result must be unique.
    let mut seen: Vec<String> = Vec::new();
    let mut t: usize = 0;
    while t < rows.len()
        invariant
            t <= rows.len(),
            texts(seen@) == project_views(rows@).take(t as int).map_values(|p: ProjectView| p.id),
            texts(seen@).no_duplicates(),
            settings_rows(before@.projects, submitted@.projects) == Ok::<Seq<Option<int>>, Text>(ms),
            current == before@.projects,
            ps == submitted@.projects,
            ms.len() == rows@.len(),
            forall|j: int| 0 <= j < rows@.len() && #[trigger] ms[j] is Some ==> project_views(rows@)[j].id
                == current[ms[j]->0].id,
            0 <= drawn <= rows@.len(),
            offs.len() == rows@.len(),
            forall|j: int|
                #![trigger offs[j]]
                0 <= j < rows@.len() && ms[j] is None ==> 0 <= offs[j] < drawn && fresh_at(
                    project_views(rows@)[j].id,
                    start,
                    offs[j],
                ),
            forall|a: int, b: int|
                0 <= a < b < rows@.len() && ms[a] is None && ms[b] is None ==> #[trigger] offs[a]
                    < #[trigger] offs[b],
        decreases rows.len() - t,
    {
        if contains_text(&seen, rows[t].id.as_str()) {
            proof {
                reveal_strlit("Settings payload contains duplicate project ID '");
                reveal_strlit("'");
                let ids = project_views(rows@).take(t as int).map_values(|p: ProjectView| p.id);
                let a = choose|a: int| 0 <= a < ids.len() && ids[a] == rows@[t as int].id@;
                assert(project_views(rows@)[a].id == project_views(rows@)[t as int].id);
                lemma_matched_ids_distinct(current, ps);
                if ms[a] is Some && ms[t as int] is Some {
                    assert(current[ms[a]->0].id != current[ms[t as int]->0].id);
                }
                assert(ms[a] is None || ms[t as int] is None);
                let tt = t as int;
                if ms[a] is None && ms[tt] is None {
                    assert(offs[a] < offs[tt]);
                    let n1 = choose|nonce: u64|
                        project_views(rows@)[a].id == #[trigger] fresh_id_text(nonce, drawn_serial(start, offs[a]) as u64);
                    let n2 = choose|nonce: u64|
                        project_views(rows@)[tt].id == #[trigger] fresh_id_text(nonce, drawn_serial(start, offs[tt]) as u64);
                    law_fresh_ids_differ_in_serial(
                        n1,
                        drawn_serial(start, offs[a]) as u64,
                        n2,
                        drawn_serial(start, offs[tt]) as u64,
                    );
                    assert(false);
                }
                let (k, f) = if ms[a] is Some {
                    (a, tt)
                } else {
                    (tt, a)
                };
                assert(ms[f] is None && ms[k] is Some);
                let n = choose|nonce: u64|
                    project_views(rows@)[f].id == #[trigger] fresh_id_text(nonce, drawn_serial(start, offs[f]) as u64);
                assert(current[ms[k]->0].id == fresh_id_text(n, drawn_serial(start, offs[f]) as u64));
                assert(is_fresh_id(current[ms[k]->0].id));
            }
            let e = concat3(
                "Settings payload contains duplicate project ID '",
                rows[t].id.as_str(),
                "'",
            );
            assert(e@ == duplicate_payload_message(rows@[t as int].id@));
            return Err(e);
        }
        let ghost prev = texts(seen@);
        seen.push(rows[t].id.clone());
        assert(texts(seen@) =~= prev.push(rows@[t as int].id@));
        assert(project_views(rows@).take(t + 1).map_values(|p: ProjectView| p.id) =~= prev.push(
            rows@[t as int].id@,
        ));
        t = t + 1;
    }
    assert(project_views(rows@).take(rows.len() as int) =~= project_views(rows@));
    let r = AppConfig {
        rclone_path: submitted.rclone_path.clone(),
        remote: submitted.remote.clone(),
        remotes: clone_remotes(&submitted.remotes),
        excludes: clone_strings(&submitted.excludes),
        default_excludes: clone_strings(&submitted.default_excludes),
        extra_excludes: clone_strings(&submitted.extra_excludes),
        projects: rows,
        retired_targets: clone_retired(&before.retired_targets),
        retired_targets_unreadable: before.retired_targets_unreadable,
        scan_dirs: clone_strings(&submitted.scan_dirs),
        default_pull_dir: submitted.default_pull_dir.clone(),
        auto_check_on_launch: submitted.auto_check_on_launch,
        queue_scheduled_pushes: submitted.queue_scheduled_pushes,
        legacy_schedule_count: submitted.legacy_schedule_count,
        legacy_queue_policy: submitted.legacy_queue_policy,
        legacy_host_config_available: submitted.legacy_host_config_available,
        legacy_queue_scheduled_pushes: before.legacy_queue_scheduled_pushes,
        rclone_transfers: submitted.rclone_transfers,
        config_warnings: clone_strings(&submitted.config_warnings),
    };
    Ok(r)
}

proof fn lemma_retained_has(current: Seq<ProjectView>, ms: Seq<Option<int>>, j: int)
    requires
        0 <= j < ms.len(),
        ms[j] is Some,
    ensures
        retained_ids(current, ms).contains(current[ms[j]->0].id),
    decreases ms.len(),
{
    let prev = retained_ids(current, ms.drop_last());
    if j == ms.len() - 1 {
        assert(retained_ids(current, ms) == prev.push(current[ms[j]->0].id));
        assert(retained_ids(current, ms)[prev.len() as int] == current[ms[j]->0].id);
    } else {
        assert(ms.drop_last()[j] == ms[j]);
        lemma_retained_has(current, ms.drop_last(), j);
        let k = choose|k: int| 0 <= k < prev.len() && prev[k] == current[ms[j]->0].id;
        if ms.last() is Some {
            assert(retained_ids(current, ms)[k] == prev[k]);
        }
    }
}

/// Rows that match current records match distinct ones, each by its ID.
proof fn lemma_matched_ids_distinct(current: Seq<ProjectView>, ps: Seq<ProjectView>)
    requires
        settings_rows(current, ps) is Ok,
    ensures
        ({
            let ms = settings_rows(current, ps)->Ok_0;
            &&& ms.len() == ps.len()
            &&& forall|j: int| 0 <= j < ms.len() && #[trigger] ms[j] is Some ==> 0 <= ms[j]->0 < current.len()
                && current[ms[j]->0].id == ps[j].id
            &&& forall|a: int, b: int| 0 <= a < b < ms.len() && #[trigger] ms[a] is Some && #[trigger] ms[b] is Some
                ==> current[ms[a]->0].id != current[ms[b]->0].id
        }),
    decreases ps.len(),
{
    if ps.len() > 0 {
        let rest = ps.drop_last();
        lemma_matched_ids_distinct(current, rest);
        let ms0 = settings_rows(current, rest)->Ok_0;
        let p = ps.last();
        let retained = retained_ids(current, ms0);
        let m = match_index(current, p, retained)->Ok_0;
        let ms = ms0.push(m);
        assert(settings_rows(current, ps)->Ok_0 == ms);
        crate::seqs::lemma_first_index(current, has_id(p.id));
        assert forall|j: int| 0 <= j < ms.len() && #[trigger] ms[j] is Some implies 0 <= ms[j]->0 < current.len()
            && current[ms[j]->0].id == ps[j].id by {
            if j < ms0.len() {
                assert(ms[j] == ms0[j]);
                assert(ps[j] == rest[j]);
            }
        }
        assert forall|a: int, b: int| 0 <= a < b < ms.len() && #[trigger] ms[a] is Some && #[trigger] ms[b] is Some
            implies current[ms[a]->0].id != current[ms[b]->0].id by {
            assert(ms[a] == ms0[a]);
            if b < ms0.len() {
                assert(ms[b] == ms0[b]);
            } else {
                lemma_retained_has(current, ms0, a);
                assert(!retained.contains(p.id));
            }
        }
    }
}

proof fn lemma_settings_rows_err(current: Seq<ProjectView>, ps: Seq<ProjectView>, i: int)
    requires
        0 <= i < ps.len(),
        settings_rows(current, ps.take(i + 1)) is Err,
    ensures
        settings_rows(current, ps) == settings_rows(current, ps.take(i + 1)),
    decreases ps.len() - i,
{
    if i + 1 < ps.len() {
        assert(ps.take(i + 2).drop_last() =~= ps.take(i + 1));
        lemma_settings_rows_err(current, ps, i + 1);
    } else {
        assert(ps.take(i + 1) =~= ps);
    }
}

// ---------------------------------------------------------------------------
// Retiring and reattaching remote targets, materializing discovered projects.
/// The record a request about `p` acts on: the stored one with its ID, else
/// `p` itself (a scan-discovered project).
pub open spec fn current_of(c: ConfigView, p: ProjectView) -> ProjectView {
    match crate::seqs::first_index(c.projects, has_id(p.id)) {
        Some(i) => c.projects[i],
        None => p,
    }
}

pub open spec fn other_id(id: Text) -> spec_fn(ProjectView) -> bool {
    |q: ProjectView| q.id != id
}

pub open spec fn other_target(remote: Text, path: Text) -> spec_fn(RetiredView) -> bool {
    |t: RetiredView| !retires(remote, path)(t)
}

fn find_by_id(projects: &Vec<Project>, id: &str) -> (r: Option<usize>)
    ensures
        match r {
            Some(i) => crate::seqs::first_index(project_views(projects@), has_id(id@)) == Some(i as int)
                && i < projects@.len(),
            None => crate::seqs::first_index(project_views(projects@), has_id(id@)) is None,
        },
{
    let ghost ps = project_views(projects@);
    let mut i: usize = 0;
    while i < projects.len()
        invariant
            i <= projects.len(),
            ps == project_views(projects@),
            forall|j: int| 0 <= j < i ==> !has_id(id@)(#[trigger] ps[j]),
        decreases projects.len() - i,
    {
        if same_text(projects[i].id.as_str(), id) {
            proof {
                crate::seqs::lemma_first_index_is(ps, has_id(id@), i as int);
            }
            return Some(i);
        }
        i = i + 1;
    }
    proof {
        crate::seqs::lemma_first_index_none(ps, has_id(id@));
    }
    None
}

fn current_project(cfg: &AppConfig, project: &Project) -> (r: Project)
    ensures
        r@ == current_of(cfg@, project@),
{
    match find_by_id(&cfg.projects, project.id.as_str()) {
        Some(i) => cfg.projects[i].clone(),
        None => project.clone(),
    }
}

fn remove_project_id(projects: &mut Vec<Project>, id: &str)
    ensures
        project_views(final(projects)@) == project_views(old(projects)@).filter(other_id(id@)),
{
    let ghost ps = project_views(projects@);
    let mut kept: Vec<Project> = Vec::new();
    let mut i: usize = 0;
    while i < projects.len()
        invariant
            i <= projects.len(),
            ps == project_views(projects@),
            ps == project_views(old(projects)@),
            project_views(kept@) == ps.take(i as int).filter(other_id(id@)),
        decreases projects.len() - i,
    {
        proof {
            assert(ps.take(i + 1) =~= ps.take(i as int).push(ps[i as int]));
            ps.take(i as int).lemma_filter_push(ps[i as int], other_id(id@));
        }
        if !same_text(projects[i].id.as_str(), id) {
            let ghost prev = project_views(kept@);
            kept.push(projects[i].clone());
            assert(project_views(kept@) =~= prev.push(ps[i as int]));
        }
        i = i + 1;
    }
    assert(ps.take(projects.len() as int) =~= ps);
    *projects = kept;
}

fn target_matches(t: &RetiredTarget, remote: &str, path: &str) -> (r: bool)
    ensures
        r == retires(remote@, path@)(t@),
{
    let cp = canonical_remote_path(t.remote_path.as_str());
    same_text(t.remote.as_str(), remote) && same_text(cp.as_str(), path)
}

fn has_target(targets: &Vec<RetiredTarget>, remote: &str, path: &str) -> (r: bool)
    ensures
        r == (crate::seqs::first_index(retired_views(targets@), retires(remote@, path@)) is Some),
{
    let ghost ts = retired_views(targets@);
    let mut i: usize = 0;
    while i < targets.len()
        invariant
            i <= targets.len(),
            ts == retired_views(targets@),
            forall|j: int| 0 <= j < i ==> !retires(remote@, path@)(#[trigger] ts[j]),
        decreases targets.len() - i,
    {
        if target_matches(&targets[i], remote, path) {
            proof {
                crate::seqs::lemma_first_index_is(ts, retires(remote@, path@), i as int);
            }
            return true;
        }
        i = i + 1;
    }
    proof {
        crate::seqs::lemma_first_index_none(ts, retires(remote@, path@));
    }
    false
}

pub open spec fn retirement_record(c: ConfigView, p: ProjectView, now_ms: i64, device: Text) -> RetiredView {
    let cur = current_of(c, p);
    RetiredView {
        remote: project_remote_of(c, cur).name,
        remote_path: project_path_of(c, cur),
        name_at_retirement: cur.name,
        project_id_at_retirement: cur.id,
        retired_at_ms: now_ms,
        retired_by_device: device,
    }
}

/// The config after the target of `p` is retired and `p` removed.
pub open spec fn after_retire(c: ConfigView, p: ProjectView, now_ms: i64, device: Text) -> ConfigView {
    let cur = current_of(c, p);
    let remote = project_remote_of(c, cur).name;
    let path = project_path_of(c, cur);
    ConfigView {
        projects: c.projects.filter(other_id(p.id)),
        retired_targets: if crate::seqs::first_index(c.retired_targets, retires(remote, path)) is Some {
            c.retired_targets
        } else {
            c.retired_targets.push(retirement_record(c, p, now_ms, device))
        },
        ..c
    }
}

/// Publish the retirement of a project's remote target and remove the
/// project, in one edit of the shared config. The target is recorded (once)
/// by its resolved remote and path, not by name or ID, so that a stale
/// discovered copy of the folder is still recognized.
pub fn retire_target_in(cfg: &mut AppConfig, project: &Project, now_ms: i64, device: &str) -> (r: Result<
    (),
    String,
>)
    ensures
        r is Err <==> old(cfg)@.retired_targets_unreadable,
        r matches Err(e) ==> e@
            == "Shared retired-target safety records are unreadable; local deletion was aborted"@
            && final(cfg)@ == old(cfg)@,
        r is Ok ==> final(cfg)@ == after_retire(old(cfg)@, project@, now_ms, device@),
{
    if cfg.retired_targets_unreadable {
        proof {
            reveal_strlit(
                "Shared retired-target safety records are unreadable; local deletion was aborted",
            );
        }
        return Err(
            String::from_str(
                "Shared retired-target safety records are unreadable; local deletion was aborted",
            ),
        );
    }
    let current = current_project(cfg, project);
    let remote = cfg.project_remote(&current).name;
    let path = cfg.project_remote_path(&current);
    if !has_target(&cfg.retired_targets, remote.as_str(), path.as_str()) {
        let ghost prev = retired_views(cfg.retired_targets@);
        let t = RetiredTarget {
            remote,
            remote_path: path,
            name_at_retirement: current.name.clone(),
            project_id_at_retirement: current.id.clone(),
            retired_at_ms: now_ms,
            retired_by_device: copy_text(device),
        };
        cfg.retired_targets.push(t);
        assert(retired_views(cfg.retired_targets@) =~= prev.push(
            retirement_record(old(cfg)@, project@, now_ms, device@),
        ));
    }
    remove_project_id(&mut cfg.projects, project.id.as_str());
    Ok(())
}

/// A record as reattached: the same fields under a new identity, with no
/// schedule of any kind.
pub open spec fn reattached(cur: ProjectView, id: Text) -> ProjectView {
    ProjectView {
        id,
        schedule: None,
        schedule_error: None,
        legacy_schedule: None,
        legacy_schedule_raw: None,
        ..cur
    }
}

pub open spec fn not_retired_message(remote: Text, path: Text) -> Text {
    "Remote target "@ + remote + ":"@ + path + " is not retired"@
}

/// Explicitly reattach a retired target as a new project generation: the
/// retirement record goes, and the project comes back under a fresh ID, so
/// the old ID and any device-local schedule are never reused. Returns the
/// new ID.
pub fn reattach_target_in(cfg: &mut AppConfig, project: &Project, ids: &mut IdSource) -> (r: Result<
    String,
    String,
>)
    ensures
        ({
            let c = old(cfg)@;
            let cur = current_of(c, project@);
            let remote = project_remote_of(c, cur).name;
            let path = project_path_of(c, cur);
            &&& c.retired_targets_unreadable ==> (r matches Err(e) && e@
                == "Shared retired-target safety records are unreadable; reattach is unavailable until the config is repaired"@)
            &&& !c.retired_targets_unreadable && crate::seqs::first_index(c.retired_targets, retires(remote, path)) is None
                ==> (r matches Err(e) && e@ == not_retired_message(remote, path))
            &&& r is Err ==> final(cfg)@ == c
            &&& r is Ok <==> !c.retired_targets_unreadable && crate::seqs::first_index(
                c.retired_targets,
                retires(remote, path),
            ) is Some
            &&& r matches Ok(id) ==> is_fresh_id(id@) && final(cfg)@ == (ConfigView {
                projects: c.projects.filter(other_id(project@.id)).push(reattached(cur, id@)),
                retired_targets: c.retired_targets.filter(other_target(remote, path)),
                ..c
            })
        }),
{
    if cfg.retired_targets_unreadable {
        proof {
            reveal_strlit(
                "Shared retired-target safety records are unreadable; reattach is unavailable until the config is repaired",
            );
        }
        return Err(
            String::from_str(
                "Shared retired-target safety records are unreadable; reattach is unavailable until the config is repaired",
            ),
        );
    }
    let current = current_project(cfg, project);
    let remote = cfg.project_remote(&current).name;
    let path = cfg.project_remote_path(&current);
    if !has_target(&cfg.retired_targets, remote.as_str(), path.as_str()) {
        let a = concat3("Remote target ", remote.as_str(), ":");
        proof {
            reveal_strlit("Remote target ");
            reveal_strlit(":");
            reveal_strlit(" is not retired");
        }
        return Err(concat3(a.as_str(), path.as_str(), " is not retired"));
    }
    let ghost ts = retired_views(cfg.retired_targets@);
    let ghost keep = other_target(remote@, path@);
    let mut kept: Vec<RetiredTarget> = Vec::new();
    let mut i: usize = 0;
    while i < cfg.retired_targets.len()
        invariant
            i <= cfg.retired_targets.len(),
            ts == retired_views(cfg.retired_targets@),
            keep == other_target(remote@, path@),
            retired_views(kept@) == ts.take(i as int).filter(keep),
        decreases cfg.retired_targets.len() - i,
    {
        proof {
            assert(ts.take(i + 1) =~= ts.take(i as int).push(ts[i as int]));
            ts.take(i as int).lemma_filter_push(ts[i as int], keep);
        }
        if !target_matches(&cfg.retired_targets[i], remote.as_str(), path.as_str()) {
            let ghost prev = retired_views(kept@);
            kept.push(cfg.retired_targets[i].clone());
            assert(retired_views(kept@) =~= prev.push(ts[i as int]));
        }
        i = i + 1;
    }
    assert(ts.take(cfg.retired_targets.len() as int) =~= ts);
    cfg.retired_targets = kept;
    remove_project_id(&mut cfg.projects, project.id.as_str());
    let new_id = ids.fresh();
    let mut recreated = current;
    recreated.id = new_id.clone();
    recreated.schedule = None;
    recreated.schedule_error = None;
    recreated.legacy_schedule = None;
    recreated.legacy_schedule_raw = None;
    let ghost prev = project_views(cfg.projects@);
    cfg.projects.push(recreated);
    assert(project_views(cfg.projects@) =~= prev.push(reattached(current_of(old(cfg)@, project@), new_id@)));
    Ok(new_id)
}

pub open spec fn has_name(name: Text) -> spec_fn(ProjectView) -> bool {
    |c: ProjectView| c.name == name
}

/// Materialize a scan-discovered project as a configured record. The stored
/// record with the same ID is returned as is; a same-named record with
/// another identity is an error; otherwise the project is added under a
/// fresh ID with no schedule, so that deleting and recreating a directory
/// cannot silently revive its local schedule.
pub fn materialize_in(cfg: &mut AppConfig, project: &Project, ids: &mut IdSource) -> (r: Result<
    Project,
    String,
>)
    ensures
        ({
            let c = old(cfg)@;
            match crate::seqs::first_index(c.projects, has_id(project@.id)) {
                Some(i) => r matches Ok(p) && p@ == c.projects[i] && final(cfg)@ == c,
                None => if crate::seqs::first_index(c.projects, has_name(project@.name)) is Some {
                    r matches Err(e) && e@ == "Project '"@ + project@.name
                        + "' already exists with a different identity"@ && final(cfg)@ == c
                } else {
                    r matches Ok(p) && p@ == reattached(project@, p@.id) && is_fresh_id(p@.id)
                        && final(cfg)@ == (ConfigView { projects: c.projects.push(p@), ..c })
                },
            }
        }),
{
    match find_by_id(&cfg.projects, project.id.as_str()) {
        Some(i) => {
            return Ok(cfg.projects[i].clone());
        },
        None => {},
    }
    let ghost ps = project_views(cfg.projects@);
    let mut j: usize = 0;
    while j < cfg.projects.len()
        invariant
            j <= cfg.projects.len(),
            ps == project_views(cfg.projects@),
            cfg@ == old(cfg)@,
            crate::seqs::first_index(ps, has_id(project@.id)) is None,
            forall|t: int| 0 <= t < j ==> !has_name(project@.name)(#[trigger] ps[t]),
        decreases cfg.projects.len() - j,
    {
        if same_text(cfg.projects[j].name.as_str(), project.name.as_str()) {
            proof {
                crate::seqs::lemma_first_index_is(ps, has_name(project@.name), j as int);
                reveal_strlit("Project '");
                reveal_strlit("' already exists with a different identity");
            }
            return Err(
                concat3(
                    "Project '",
                    project.name.as_str(),
                    "' already exists with a different identity",
                ),
            );
        }
        j = j + 1;
    }
    proof {
        crate::seqs::lemma_first_index_none(ps, has_name(project@.name));
    }
    let mut record = project.clone();
    record.id = ids.fresh();
    record.schedule = None;
    record.schedule_error = None;
    record.legacy_schedule = None;
    record.legacy_schedule_raw = None;
    cfg.projects.push(record.clone());
    assert(project_views(cfg.projects@) =~= ps.push(record@));
    Ok(record)
}

// ---------------------------------------------------------------------------
// Reading the stored config.
pub open spec fn stored_schedule_of(parsed: Option<Result<Schedule, String>>) -> (Option<ScheduleView>, Option<Text>) {
    match parsed {
        None => (None, None),
        Some(Ok(s)) => if valid(s@) {
            (Some(s@), None)
        } else {
            (None, validation_error(s@))
        },
        Some(Err(e)) => (None, Some("Invalid project schedule: "@ + e@)),
    }
}

/// A stored project's optional `schedule` field (absent, parsed, or the
/// parser's message): a malformed schedule must not discard the project, so
/// it becomes an error kept beside the project instead.
pub fn classify_stored_schedule(parsed: Option<Result<Schedule, String>>) -> (r: (Option<Schedule>, Option<String>))
    ensures
        (crate::local_edits::sched_opt(r.0), text_view(r.1)) == stored_schedule_of(parsed),
{
    match parsed {
        None => (None, None),
        Some(Ok(s)) => match s.validate() {
            Ok(()) => (Some(s), None),
            Err(e) => (None, Some(e)),
        },
        Some(Err(e)) => {
            proof {
                reveal_strlit("Invalid project schedule: ");
            }
            (None, Some(concat("Invalid project schedule: ", e.as_str())))
        },
    }
}

/// The `retired_targets` field of the stored config, parsed on its own so
/// that one malformed safety record cannot discard the whole config.
pub enum RetiredField {
    Absent,
    Parsed(Vec<RetiredTarget>),
    Unparsable(String),
}

/// What reading the stored config gave.
pub enum UserRead {
    Missing,
    Unparsable(String),
    Parsed(UserConfig, RetiredField),
}

pub open spec fn user_parse_warning(e: Text) -> Text {
    "Could not parse rcsync config; remote writes are disabled: "@ + e
}

pub open spec fn retired_parse_warning(e: Text) -> Text {
    "Could not parse shared retired-target safety records; remote writes are disabled: "@ + e
}

/// The stored config as the app reads it. A missing file is a fresh
/// install; an unparsable one is a fresh config with remote writes disabled
/// (and a warning); an unparsable retirement field disables remote writes
/// without losing the rest of the config.
pub fn read_user_config(read: UserRead, warnings: &mut Vec<String>) -> (r: UserConfig)
    ensures
        match read {
            UserRead::Missing => {
                &&& r@ == UserConfig::default_view()
                &&& final(warnings)@ == old(warnings)@
            },
            UserRead::Unparsable(e) => {
                &&& r@ == (UserView { retired_targets_unreadable: true, ..UserConfig::default_view() })
                &&& texts(final(warnings)@) == texts(old(warnings)@).push(user_parse_warning(e@))
            },
            UserRead::Parsed(u, field) => match field {
                RetiredField::Absent => r@ == u@ && final(warnings)@ == old(warnings)@,
                RetiredField::Parsed(ts) => r@ == (UserView { retired_targets: retired_views(ts@), ..u@ })
                    && final(warnings)@ == old(warnings)@,
                RetiredField::Unparsable(e) => r@ == (UserView { retired_targets_unreadable: true, ..u@ })
                    && texts(final(warnings)@) == texts(old(warnings)@).push(retired_parse_warning(e@)),
            },
        },
{
    match read {
        UserRead::Missing => UserConfig::default(),
        UserRead::Unparsable(e) => {
            proof {
                reveal_strlit("Could not parse rcsync config; remote writes are disabled: ");
            }
            let ghost prev = texts(warnings@);
            warnings.push(concat("Could not parse rcsync config; remote writes are disabled: ", e.as_str()));
            assert(texts(warnings@) =~= prev.push(user_parse_warning(e@)));
            let mut u = UserConfig::default();
            u.retired_targets_unreadable = true;
            u
        },
        UserRead::Parsed(u, field) => {
            let mut u = u;
            match field {
                RetiredField::Absent => {},
                RetiredField::Parsed(ts) => {
                    u.retired_targets = ts;
                },
                RetiredField::Unparsable(e) => {
                    proof {
                        reveal_strlit(
                            "Could not parse shared retired-target safety records; remote writes are disabled: ",
                        );
                    }
                    let ghost prev = texts(warnings@);
                    warnings.push(
                        concat(
                            "Could not parse shared retired-target safety records; remote writes are disabled: ",
                            e.as_str(),
                        ),
                    );
                    assert(texts(warnings@) =~= prev.push(retired_parse_warning(e@)));
                    u.retired_targets_unreadable = true;
                },
            }
            u
        },
    }
}

// ---------------------------------------------------------------------------
// Laws.
/// Retired-target protection: once a project's target is retired, every
/// project that resolves to the same remote and path (a stale discovered
/// copy, say, under any name or ID) is refused remote writes.
pub proof fn law_retired_target_blocks_writes(c: ConfigView, p: ProjectView, now_ms: i64, device: Text, q: ProjectView)
    requires
        ({
            let c2 = after_retire(c, p, now_ms, device);
            let cur = current_of(c, p);
            project_remote_of(c2, q).name == project_remote_of(c, cur).name
                && project_path_of(c2, q) == project_path_of(c, cur)
        }),
    ensures
        crate::model::retired_index_of(after_retire(c, p, now_ms, device), q) is Some,
{
    let c2 = after_retire(c, p, now_ms, device);
    let cur = current_of(c, p);
    let remote = project_remote_of(c, cur).name;
    let path = project_path_of(c, cur);
    let pred = retires(remote, path);
    assert(project_remote_of(c2, q).name == remote);
    crate::seqs::lemma_first_index(c.retired_targets, pred);
    crate::seqs::lemma_first_index(c2.retired_targets, pred);
    if crate::seqs::first_index(c.retired_targets, pred) is Some {
        let i = crate::seqs::first_index(c.retired_targets, pred)->0;
        assert(pred(c2.retired_targets[i]));
    } else {
        crate::model::law_resolved_paths_are_canonical(c, cur, Seq::empty(), Seq::empty());
        let last = c2.retired_targets.len() - 1;
        assert(c2.retired_targets[last] == retirement_record(c, p, now_ms, device));
        assert(pred(c2.retired_targets[last]));
    }
}

/// Retirement is by target, not by name or ID: retiring one project blocks
/// no project that resolves to another remote or path and was writable
/// before, whatever its name.
pub proof fn law_retirement_is_by_target(c: ConfigView, p: ProjectView, now_ms: i64, device: Text, q: ProjectView)
    requires
        crate::model::retired_index_of(c, q) is None,
        !(project_remote_of(c, q).name == project_remote_of(c, current_of(c, p)).name
            && project_path_of(c, q) == project_path_of(c, current_of(c, p))),
    ensures
        crate::model::retired_index_of(after_retire(c, p, now_ms, device), q) is None,
{
    let c1 = after_retire(c, p, now_ms, device);
    let pred = retires(project_remote_of(c, q).name, project_path_of(c, q));
    crate::seqs::lemma_first_index(c.retired_targets, pred);
    crate::model::law_resolved_paths_are_canonical(c, current_of(c, p), Seq::empty(), Seq::empty());
    assert forall|k: int| 0 <= k < c1.retired_targets.len() implies !pred(#[trigger] c1.retired_targets[k]) by {
        if k < c.retired_targets.len() {
            assert(c1.retired_targets[k] == c.retired_targets[k]);
        }
    }
    crate::seqs::lemma_first_index_none(c1.retired_targets, pred);
}

/// Retiring a project's target and reattaching it is a round trip: the
/// retired target can be reattached, and the record it comes back as, under
/// its new ID and with no schedule, may write to the target again.
pub proof fn law_reattach_undoes_retirement(c: ConfigView, p: ProjectView, now_ms: i64, device: Text, id: Text)
    requires
        current_of(c, p) == p,
    ensures
        ({
            let c1 = after_retire(c, p, now_ms, device);
            let remote = project_remote_of(c1, p).name;
            let path = project_path_of(c1, p);
            let c2 = ConfigView {
                projects: c1.projects.filter(other_id(p.id)).push(reattached(p, id)),
                retired_targets: c1.retired_targets.filter(other_target(remote, path)),
                ..c1
            };
            &&& current_of(c1, p) == p
            &&& crate::seqs::first_index(c1.retired_targets, retires(remote, path)) is Some
            &&& crate::model::retired_index_of(c2, reattached(p, id)) is None
        }),
{
    let c1 = after_retire(c, p, now_ms, device);
    let remote = project_remote_of(c1, p).name;
    let path = project_path_of(c1, p);
    let kept = c1.projects;
    assert forall|k: int| 0 <= k < kept.len() implies !has_id(p.id)(#[trigger] kept[k]) by {
        crate::seqs::lemma_filter_member(c.projects, other_id(p.id), k);
    }
    crate::seqs::lemma_first_index_none(kept, has_id(p.id));
    law_retired_target_blocks_writes(c, p, now_ms, device, p);
    let ts = c1.retired_targets.filter(other_target(remote, path));
    assert forall|k: int| 0 <= k < ts.len() implies !retires(remote, path)(#[trigger] ts[k]) by {
        crate::seqs::lemma_filter_member(c1.retired_targets, other_target(remote, path), k);
    }
    crate::seqs::lemma_first_index_none(ts, retires(remote, path));
}

proof fn lemma_attached_from(ls: Seq<LocalScheduleView>, id: Text)
    ensures
        attached(ls, id) matches Some(s) ==> exists|i: int| 0 <= i < ls.len() && (#[trigger] ls[i]).project_id == id && ls[i].schedule == s,
    decreases ls.len(),
{
    if ls.len() > 0 {
        lemma_attached_from(ls.drop_last(), id);
        if ls.last().project_id != id {
            if let Some(s) = attached(ls, id) {
                let i = choose|i: int| 0 <= i < ls.drop_last().len() && (#[trigger] ls.drop_last()[i]).project_id == id && ls.drop_last()[i].schedule == s;
                assert(ls[i] == ls.drop_last()[i]);
            }
        } else {
            assert(ls[ls.len() - 1] == ls.last());
        }
    }
}

/// Shared schedules are never effective: a loaded project's schedule always
/// comes from this device's own layer, from an entry for the project's ID.
pub proof fn law_shared_schedules_are_never_effective(ps: Seq<ProjectView>, ls: Seq<LocalScheduleView>, j: int)
    requires
        0 <= j < ps.len(),
    ensures
        loaded_projects(ps, ls)[j].schedule matches Some(s) ==> exists|i: int| 0 <= i < ls.len()
            && (#[trigger] ls[i]).project_id == loaded_projects(ps, ls)[j].id && ls[i].schedule == s,
{
    lemma_attached_from(ls, bootstrap_id(ps[j]));
}

/// Two stored projects that share an ID get no device-local schedule: the
/// automation of a duplicated ID is inactive.
pub proof fn law_duplicated_ids_have_no_schedule(ps: Seq<ProjectView>, ls: Seq<LocalScheduleView>, a: int, b: int)
    requires
        0 <= a < b < ps.len(),
        bootstrap_id(ps[a]) == bootstrap_id(ps[b]),
    ensures
        loaded_projects(ps, ls)[a].schedule is None,
        loaded_projects(ps, ls)[b].schedule is None,
{
    let ids = loaded_ids(ps);
    crate::seqs::lemma_dup_list(ids, bootstrap_id(ps[a]));
    assert(ids[a] == bootstrap_id(ps[a]) && ids[b] == bootstrap_id(ps[b]));
}

/// A Settings row matches a current record only by its exact, non-blank,
/// unclaimed ID: a blank row is always a new record, and no row ever matches
/// by name.
pub proof fn law_settings_rows_match_only_by_id(current: Seq<ProjectView>, p: ProjectView, retained: Seq<Text>)
    ensures
        trim(p.id).len() == 0 ==> match_index(current, p, retained) == Ok::<Option<int>, Text>(None),
        match_index(current, p, retained) matches Ok(Some(i)) ==> 0 <= i < current.len()
            && current[i].id == p.id && trim(p.id).len() > 0 && !retained.contains(p.id),
{
    crate::seqs::lemma_first_index(current, has_id(p.id));
    if crate::seqs::first_index(current, has_id(p.id)) is None {
        if current.filter(has_id(p.id)).len() > 0 {
            current.lemma_filter_pred(has_id(p.id), 0);
            crate::seqs::lemma_filter_member(current, has_id(p.id), 0);
        }
    }
}

/// What is saved loads back: the user excludes and every project's excludes,
/// name and paths survive a save followed by a load.
pub proof fn law_saved_projects_load_back(c: ConfigView, u: UserView, ls: Seq<LocalScheduleView>, j: int)
    requires
        u.projects.len() == c.projects.len(),
        forall|k: int| 0 <= k < c.projects.len() ==> saved_project(c.projects[k], #[trigger] u.projects[k]),
        0 <= j < c.projects.len(),
    ensures
        loaded_projects(u.projects, ls)[j].excludes == c.projects[j].excludes,
        loaded_projects(u.projects, ls)[j].name == c.projects[j].name,
        loaded_projects(u.projects, ls)[j].local_path == c.projects[j].local_path,
        loaded_projects(u.projects, ls)[j].remote == c.projects[j].remote,
        trim(c.projects[j].id).len() > 0 ==> loaded_projects(u.projects, ls)[j].id == c.projects[j].id,
{
    assert(saved_project(c.projects[j], u.projects[j]));
}

} // verus!
