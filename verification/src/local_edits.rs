//! Edits of the device-local automation layer: one project's schedule, the
//! queue policy, and the explicit migration of legacy shared schedules.
use crate::automation::{
    local_views, schedule_ids, LocalAutomationConfig, LocalSchedule, LocalScheduleView, LocalView,
};
use crate::identity::{project_id_for_fields, project_id_text, record_hash, IdSource};
use crate::model::{default_remote_of, project_views, texts, AppConfig, ConfigView, Project, ProjectView, Text};
use crate::schedule::{valid, validation_error, Schedule, ScheduleView};
use crate::seqs::{first_index, lemma_first_index_is, lemma_first_index_none};
use crate::settings::{bootstrap_id, has_id, has_name, is_fresh_id, UserConfig, UserView};
use crate::text::{concat, concat3, contains_text, copy_text, is_blank, same_text, trim};
use vstd::prelude::*;
use vstd::utf8::encode_utf8;

verus! {

broadcast use vstd::seq_lib::group_seq_properties;

/// The texts joined with `sep` between them.
pub open spec fn joined(ws: Seq<Text>, sep: Text) -> Text
    decreases ws.len(),
{
    if ws.len() == 0 {
        Seq::empty()
    } else if ws.len() == 1 {
        ws[0]
    } else {
        joined(ws.drop_last(), sep) + sep + ws.last()
    }
}

/// `ws.join(sep)`.
pub fn join_texts(ws: &Vec<String>, sep: &str) -> (r: String)
    ensures
        r@ == joined(texts(ws@), sep@),
{
    let ghost t = texts(ws@);
    let mut out = String::new();
    let mut i: usize = 0;
    while i < ws.len()
        invariant
            i <= ws.len(),
            t == texts(ws@),
            out@ == joined(t.take(i as int), sep@),
        decreases ws.len() - i,
    {
        assert(t.take(i + 1).drop_last() =~= t.take(i as int));
        if i == 0 {
            out = ws[0].clone();
            assert(t.take(1) =~= seq![t[0]]);
        } else {
            let with_sep = concat(out.as_str(), sep);
            out = concat(with_sep.as_str(), ws[i].as_str());
        }
        i = i + 1;
    }
    assert(t.take(ws.len() as int) =~= t);
    out
}

pub open spec fn repair_message(purpose: Text, warnings: Seq<Text>) -> Text {
    "Device-local automation config needs repair "@ + purpose + ": "@ + joined(warnings, "; "@)
}

/// An existing device-local file that produced warnings must be repaired
/// before it is edited: writing it back would silently drop what could not
/// be read.
pub fn ensure_local_editable(file_exists: bool, warnings: &Vec<String>, purpose: &str) -> (r: Result<
    (),
    String,
>)
    ensures
        r is Err <==> file_exists && warnings@.len() > 0,
        r matches Err(e) ==> e@ == repair_message(purpose@, texts(warnings@)),
{
    if file_exists && warnings.len() > 0 {
        let j = join_texts(warnings, "; ");
        let a = concat3("Device-local automation config needs repair ", purpose, ": ");
        proof {
            reveal_strlit("Device-local automation config needs repair ");
            reveal_strlit(": ");
            reveal_strlit("; ");
        }
        Err(concat(a.as_str(), j.as_str()))
    } else {
        Ok(())
    }
}

/// Set this device's queue policy for scheduled Pushes.
pub fn set_local_queue_policy(
    local: &mut LocalAutomationConfig,
    file_exists: bool,
    warnings: &Vec<String>,
    enabled: bool,
) -> (r: Result<(), String>)
    ensures
        r is Err <==> file_exists && warnings@.len() > 0,
        r matches Err(e) ==> e@ == repair_message("before it can be edited"@, texts(warnings@))
            && final(local)@ == old(local)@,
        r is Ok ==> final(local)@ == (LocalView { queue_scheduled_pushes: enabled, ..old(local)@ }),
{
    proof {
        reveal_strlit("before it can be edited");
    }
    ensure_local_editable(file_exists, warnings, "before it can be edited")?;
    local.queue_scheduled_pushes = enabled;
    Ok(())
}

// ---------------------------------------------------------------------------
// One project's schedule.
pub open spec fn opt_text(o: Option<&str>) -> Option<Text> {
    match o {
        Some(s) => Some(s@),
        None => None,
    }
}

pub open spec fn not_found_message(id: Text) -> Text {
    "Project ID '"@ + id + "' was not found"@
}

/// The stable ID under which project scanning lists a discovered folder.
pub open spec fn discovered_id(name: Text, path: Text, remote: Text) -> Text {
    project_id_text(record_hash(encode_utf8(name), encode_utf8(path), encode_utf8(""@), encode_utf8(remote)))
}

/// Which stored project a schedule edit is for: by exact ID when one is
/// given (a discovered project's ID must be exactly the one its folder is
/// listed under; a stale ID never falls back to a name), else by name;
/// `Ok(None)` is a discovered folder (at `discovered`) to be added.
pub open spec fn schedule_target(c: ConfigView, name: Text, pid: Option<Text>, discovered: Option<Text>) -> Result<
    Option<int>,
    Text,
> {
    match pid {
        Some(id) if trim(id).len() > 0 => match first_index(c.projects, has_id(id)) {
            Some(i) => Ok(Some(i)),
            None => match discovered {
                None => Err(not_found_message(id)),
                Some(path) => if id == discovered_id(name, path, default_remote_of(c)) {
                    Ok(None)
                } else {
                    Err(not_found_message(id))
                },
            },
        },
        _ => match first_index(c.projects, has_name(name)) {
            Some(i) => Ok(Some(i)),
            None => match discovered {
                None => Err("Project '"@ + name + "' not found"@),
                Some(_) => Ok(None),
            },
        },
    }
}

/// The record added for a discovered folder.
pub open spec fn discovered_record(name: Text, path: Text, remote: Text, id: Text) -> ProjectView {
    ProjectView {
        id,
        name,
        local_path: path,
        remote_path: Seq::empty(),
        remote,
        excludes: Seq::empty(),
        schedule: None,
        schedule_error: None,
        legacy_schedule: None,
        legacy_schedule_raw: None,
    }
}

pub open spec fn other_entry(id: Text) -> spec_fn(LocalScheduleView) -> bool {
    |e: LocalScheduleView| e.project_id != id
}

/// The local entries after setting (or clearing) the schedule of `id`.
pub open spec fn with_entry(
    ls: Seq<LocalScheduleView>,
    id: Text,
    name: Text,
    schedule: Option<ScheduleView>,
) -> Seq<LocalScheduleView> {
    let rest = ls.filter(other_entry(id));
    match schedule {
        Some(s) => rest.push(LocalScheduleView { project_id: id, last_seen_name: name, schedule: s }),
        None => rest,
    }
}

pub open spec fn sched_opt(s: Option<Schedule>) -> Option<ScheduleView> {
    match s {
        Some(v) => Some(v@),
        None => None,
    }
}

fn find_by_name(projects: &Vec<Project>, name: &str) -> (r: Option<usize>)
    ensures
        match r {
            Some(i) => first_index(project_views(projects@), has_name(name@)) == Some(i as int) && i
                < projects@.len(),
            None => first_index(project_views(projects@), has_name(name@)) is None,
        },
{
    let ghost ps = project_views(projects@);
    let mut i: usize = 0;
    while i < projects.len()
        invariant
            i <= projects.len(),
            ps == project_views(projects@),
            forall|j: int| 0 <= j < i ==> !has_name(name@)(#[trigger] ps[j]),
        decreases projects.len() - i,
    {
        if same_text(projects[i].name.as_str(), name) {
            proof {
                lemma_first_index_is(ps, has_name(name@), i as int);
            }
            return Some(i);
        }
        i = i + 1;
    }
    proof {
        lemma_first_index_none(ps, has_name(name@));
    }
    None
}

fn find_by_id(projects: &Vec<Project>, id: &str) -> (r: Option<usize>)
    ensures
        match r {
            Some(i) => first_index(project_views(projects@), has_id(id@)) == Some(i as int) && i
                < projects@.len(),
            None => first_index(project_views(projects@), has_id(id@)) is None,
        },
{
    let ghost ps = project_views(projects@);
    let mut i: usize = 0;
    while i < projects.len()
        invariant
            i <= projects.len(),
            ps == project_views(projects@),
            forall|j: int| 0 <= j < i ==> !has_id(id@)(#[trigger] ps[j]),
        decreases projects.len() - i,
    {
        if same_text(projects[i].id.as_str(), id) {
            proof {
                lemma_first_index_is(ps, has_id(id@), i as int);
            }
            return Some(i);
        }
        i = i + 1;
    }
    proof {
        lemma_first_index_none(ps, has_id(id@));
    }
    None
}

fn resolve_schedule_target(
    cfg: &AppConfig,
    name: &str,
    project_id: Option<&str>,
    discovered: &Option<String>,
) -> (r: Result<Option<usize>, String>)
    ensures
        match schedule_target(cfg@, name@, opt_text(project_id), crate::model::text_view(*discovered)) {
            Err(e) => r matches Err(x) && x@ == e,
            Ok(None) => r matches Ok(None),
            Ok(Some(i)) => r matches Ok(Some(j)) && j == i && j < cfg@.projects.len(),
        },
{
    match project_id {
        Some(id) => {
            if !is_blank(id) {
                match find_by_id(&cfg.projects, id) {
                    Some(i) => return Ok(Some(i)),
                    None => {},
                }
                proof {
                    reveal_strlit("Project ID '");
                    reveal_strlit("' was not found");
                }
                match discovered {
                    None => return Err(concat3("Project ID '", id, "' was not found")),
                    Some(path) => {
                        let remote = cfg.default_remote_name();
                        let expected = project_id_for_fields(name, path.as_str(), "", remote.as_str());
                        proof {
                            reveal_strlit("");
                        }
                        if same_text(id, expected.as_str()) {
                            return Ok(None);
                        } else {
                            return Err(concat3("Project ID '", id, "' was not found"));
                        }
                    },
                }
            }
        },
        None => {},
    }
    match find_by_name(&cfg.projects, name) {
        Some(i) => Ok(Some(i)),
        None => match discovered {
            None => {
                proof {
                    reveal_strlit("Project '");
                    reveal_strlit("' not found");
                }
                Err(concat3("Project '", name, "' not found"))
            },
            Some(_) => Ok(None),
        },
    }
}

/// Set (or, with `None`, clear) the schedule of one project on this device.
/// The project is found by exact ID, else (no ID given) by name; a
/// scan-discovered folder (`discovered` is where the folder was found) is
/// first added to the shared config under a fresh ID, so that the local entry
/// always points at a durable project. Returns the project's ID.
///
/// The caller stores the shared config first and the local layer second: if
/// the second write fails, the project stays harmlessly unscheduled.
pub fn set_local_project_schedule(
    cfg: &mut AppConfig,
    local: &mut LocalAutomationConfig,
    ids: &mut IdSource,
    local_file_exists: bool,
    local_warnings: &Vec<String>,
    project_name: &str,
    project_id: Option<&str>,
    schedule: Option<Schedule>,
    discovered: Option<String>,
) -> (r: Result<String, String>)
    ensures
        ({
            let c = old(cfg)@;
            let l = old(local)@;
            let target = schedule_target(c, project_name@, opt_text(project_id), crate::model::text_view(discovered));
            if schedule is Some && !valid(schedule->0@) {
                r matches Err(e) && Some(e@) == validation_error(schedule->0@) && final(cfg)@ == c && final(local)@ == l
            } else if local_file_exists && local_warnings@.len() > 0 {
                r matches Err(e) && e@ == repair_message("before it can be edited"@, texts(local_warnings@))
                    && final(cfg)@ == c && final(local)@ == l
            } else {
                match target {
                    Err(e) => r matches Err(x) && x@ == e && final(cfg)@ == c && final(local)@ == l,
                    Ok(t) => r matches Ok(id) && final(local)@ == (LocalView {
                        schedules: with_entry(l.schedules, id@, project_name@, sched_opt(schedule)),
                        ..l
                    }) && match t {
                        Some(i) => final(cfg)@ == (ConfigView {
                            projects: c.projects.update(i, ProjectView { id: id@, ..c.projects[i] }),
                            ..c
                        }) && (if trim(c.projects[i].id).len() == 0 {
                            is_fresh_id(id@)
                        } else {
                            id@ == c.projects[i].id
                        }),
                        None => is_fresh_id(id@) && final(cfg)@ == (ConfigView {
                            projects: c.projects.push(
                                discovered_record(
                                    project_name@,
                                    discovered->0@,
                                    default_remote_of(c),
                                    id@,
                                ),
                            ),
                            ..c
                        }),
                    },
                }
            }
        }),
{
    match &schedule {
        Some(s) => {
            s.validate()?;
        },
        None => {},
    }
    proof {
        reveal_strlit("before it can be edited");
    }
    ensure_local_editable(local_file_exists, local_warnings, "before it can be edited")?;
    let target = resolve_schedule_target(cfg, project_name, project_id, &discovered);
    let index = match target {
        Err(e) => return Err(e),
        Ok(t) => t,
    };
    let id = claim_target(cfg, ids, index, project_name, discovered);
    replace_entry(local, id.as_str(), project_name, schedule);
    Ok(id)
}

/// Give the target its durable ID (a fresh one for a blank ID or a new
/// discovered record) and return it.
fn claim_target(
    cfg: &mut AppConfig,
    ids: &mut IdSource,
    index: Option<usize>,
    project_name: &str,
    discovered: Option<String>,
) -> (id: String)
    requires
        index matches Some(i) ==> i < old(cfg)@.projects.len(),
        index is None ==> discovered is Some,
    ensures
        ({
            let c = old(cfg)@;
            match index {
                Some(i) => final(cfg)@ == (ConfigView {
                    projects: c.projects.update(i as int, ProjectView { id: id@, ..c.projects[i as int] }),
                    ..c
                }) && (if trim(c.projects[i as int].id).len() == 0 {
                    is_fresh_id(id@)
                } else {
                    id@ == c.projects[i as int].id
                }),
                None => is_fresh_id(id@) && final(cfg)@ == (ConfigView {
                    projects: c.projects.push(
                        discovered_record(project_name@, discovered->0@, default_remote_of(c), id@),
                    ),
                    ..c
                }),
            }
        }),
{
    match index {
        Some(i) => {
            let ghost prev = project_views(cfg.projects@);
            if is_blank(cfg.projects[i].id.as_str()) {
                let fresh = ids.fresh();
                let mut p = cfg.projects[i].clone();
                p.id = fresh;
                cfg.projects.set(i, p);
            }
            let id = cfg.projects[i].id.clone();
            assert(project_views(cfg.projects@) =~= prev.update(i as int, ProjectView { id: id@, ..prev[i as int] }));
            id
        },
        None => {
            let path = match discovered {
                Some(p) => p,
                None => {
                    proof {
                        assert(false);
                    }
                    String::new()
                },
            };
            let remote = cfg.default_remote_name();
            let fresh = ids.fresh();
            let record = Project {
                id: fresh.clone(),
                name: copy_text(project_name),
                local_path: path,
                remote_path: String::new(),
                remote,
                excludes: Vec::new(),
                schedule: None,
                schedule_error: None,
                legacy_schedule: None,
                legacy_schedule_raw: None,
            };
            assert(record@.excludes =~= Seq::<Text>::empty());
            assert(record@.remote_path =~= Seq::<char>::empty());
            assert(record@ == discovered_record(project_name@, discovered->0@, default_remote_of(old(cfg)@), fresh@));
            let ghost prev = project_views(cfg.projects@);
            cfg.projects.push(record);
            assert(project_views(cfg.projects@) =~= prev.push(
                discovered_record(project_name@, discovered->0@, default_remote_of(old(cfg)@), fresh@),
            ));
            fresh
        },
    }
}

/// Drop every local entry of `id`, then add the new schedule, if any.
fn replace_entry(local: &mut LocalAutomationConfig, id: &str, project_name: &str, schedule: Option<Schedule>)
    ensures
        final(local)@ == (LocalView {
            schedules: with_entry(old(local)@.schedules, id@, project_name@, sched_opt(schedule)),
            ..old(local)@
        }),
{
    let ghost ls = local_views(local.schedules@);
    let mut kept: Vec<LocalSchedule> = Vec::new();
    let mut k: usize = 0;
    while k < local.schedules.len()
        invariant
            k <= local.schedules.len(),
            ls == local_views(local.schedules@),
            local_views(kept@) == ls.take(k as int).filter(other_entry(id@)),
        decreases local.schedules.len() - k,
    {
        proof {
            assert(ls.take(k + 1) =~= ls.take(k as int).push(ls[k as int]));
            ls.take(k as int).lemma_filter_push(ls[k as int], other_entry(id@));
        }
        if !same_text(local.schedules[k].project_id.as_str(), id) {
            let ghost prev = local_views(kept@);
            kept.push(local.schedules[k].clone());
            assert(local_views(kept@) =~= prev.push(ls[k as int]));
        }
        k = k + 1;
    }
    assert(ls.take(local.schedules.len() as int) =~= ls);
    match schedule {
        Some(s) => {
            let ghost prev = local_views(kept@);
            kept.push(LocalSchedule { project_id: copy_text(id), last_seen_name: copy_text(project_name), schedule: s });
            assert(local_views(kept@) =~= prev.push(LocalScheduleView { project_id: id@, last_seen_name: project_name@, schedule: s@ }));
        },
        None => {},
    }
    local.schedules = kept;
}

// ---------------------------------------------------------------------------
// Migrating legacy shared schedules.
/// A project's schedule can be migrated unless the stored value is malformed:
/// an explicit migration must not destroy a value the user still needs to
/// inspect or repair.
pub open spec fn migratable(p: ProjectView) -> bool {
    !(p.legacy_schedule_raw is Some && p.schedule_error is Some)
}

/// A stored project after the migration: its bootstrap ID, and (unless its
/// legacy value is malformed) no shared schedule left.
pub open spec fn migrated_project(p: ProjectView) -> ProjectView {
    let p1 = ProjectView { id: bootstrap_id(p), ..p };
    if !migratable(p) {
        p1
    } else if p.legacy_schedule_raw is Some {
        ProjectView { schedule: None, legacy_schedule: None, legacy_schedule_raw: None, schedule_error: None, ..p1 }
    } else {
        ProjectView { schedule: None, ..p1 }
    }
}

/// The local entries a migration adds, in project order: one per migratable
/// project with a schedule, unless this device already has (or the
/// migration already added) an entry for its ID.
pub open spec fn migration_entries(ps: Seq<ProjectView>, existing: Seq<Text>) -> Seq<LocalScheduleView>
    decreases ps.len(),
{
    if ps.len() == 0 {
        Seq::empty()
    } else {
        let prev = migration_entries(ps.drop_last(), existing);
        let p = ps.last();
        let id = bootstrap_id(p);
        if migratable(p) && p.schedule is Some && !(existing + schedule_ids(prev)).contains(id) {
            prev.push(LocalScheduleView { project_id: id, last_seen_name: p.name, schedule: p.schedule->0 })
        } else {
            prev
        }
    }
}

pub open spec fn shared_repair_message(warnings: Seq<Text>) -> Text {
    "Shared config needs repair before migration: "@ + joined(warnings, "; "@)
}

fn bootstrap_stored(p: &Project) -> (r: Project)
    ensures
        r@ == (ProjectView { id: bootstrap_id(p@), ..p@ }),
{
    let mut q = p.clone();
    if is_blank(q.id.as_str()) {
        q.id = project_id_for_fields(
            q.name.as_str(),
            q.local_path.as_str(),
            q.remote_path.as_str(),
            q.remote.as_str(),
        );
    }
    q
}

/// Move legacy schedules out of the shared config into this device's layer,
/// only on the user's explicit request. `shared_warnings` are those of
/// reading the shared config. The caller writes the local layer first, then
/// the shared config, so a failed cleanup cannot reactivate the legacy
/// schedules. Returns how many schedules moved.
pub fn migrate_legacy_automation(
    user: &mut UserConfig,
    local: &mut LocalAutomationConfig,
    local_file_exists: bool,
    local_warnings: &Vec<String>,
    shared_warnings: &Vec<String>,
) -> (r: Result<usize, String>)
    ensures
        ({
            let u = old(user)@;
            let l = old(local)@;
            if local_file_exists && local_warnings@.len() > 0 {
                r matches Err(e) && e@ == repair_message("before migration"@, texts(local_warnings@))
                    && final(user)@ == u && final(local)@ == l
            } else if shared_warnings@.len() > 0 {
                r matches Err(e) && e@ == shared_repair_message(texts(shared_warnings@))
                    && final(user)@ == u && final(local)@ == l
            } else {
                let added = migration_entries(u.projects, schedule_ids(l.schedules));
                &&& r matches Ok(n) && n == added.len()
                &&& final(user)@ == (UserView {
                    projects: u.projects.map_values(|p: ProjectView| migrated_project(p)),
                    queue_scheduled_pushes: None,
                    ..u
                })
                &&& final(local)@ == (LocalView {
                    schedules: l.schedules + added,
                    queue_scheduled_pushes: match u.queue_scheduled_pushes {
                        Some(q) => q,
                        None => l.queue_scheduled_pushes,
                    },
                    ..l
                })
            }
        }),
{
    proof {
        reveal_strlit("before migration");
    }
    ensure_local_editable(local_file_exists, local_warnings, "before migration")?;
    if shared_warnings.len() > 0 {
        let j = join_texts(shared_warnings, "; ");
        proof {
            reveal_strlit("Shared config needs repair before migration: ");
            reveal_strlit("; ");
        }
        return Err(concat("Shared config needs repair before migration: ", j.as_str()));
    }
    let ghost ps = user@.projects;
    let ghost existing = schedule_ids(local@.schedules);
    let ghost l0 = local@.schedules;
    let mut projects: Vec<Project> = Vec::new();
    let mut migrated: usize = 0;
    let mut i: usize = 0;
    while i < user.projects.len()
        invariant
            i <= user.projects.len(),
            ps == user@.projects,
            existing == schedule_ids(l0),
            project_views(projects@) == ps.take(i as int).map_values(|p: ProjectView| migrated_project(p)),
            local_views(local.schedules@) == l0 + migration_entries(ps.take(i as int), existing),
            migrated == migration_entries(ps.take(i as int), existing).len(),
            migrated <= i,
            local@.queue_scheduled_pushes == old(local)@.queue_scheduled_pushes,
            local@.schema == old(local)@.schema,
            local@.device_id == old(local)@.device_id,
            local@.display_name == old(local)@.display_name,
            local@.aliases == old(local)@.aliases,
            l0 == old(local)@.schedules,
        decreases user.projects.len() - i,
    {
        let ghost before = ps.take(i as int);
        assert(ps.take(i + 1).drop_last() =~= before);
        assert(ps.take(i + 1).last() == ps[i as int]);
        let ghost prev_entries = migration_entries(before, existing);
        let mut p = bootstrap_stored(&user.projects[i]);
        let ghost p0 = ps[i as int];
        if !(p.legacy_schedule_raw.is_some() && p.schedule_error.is_some()) {
            match &p.schedule {
                Some(s) => {
                    assert(schedule_ids(local_views(local.schedules@)) =~= existing + schedule_ids(prev_entries));
                    if !has_entry(&local.schedules, p.id.as_str()) {
                        let ghost prev = local_views(local.schedules@);
                        local.schedules.push(
                            LocalSchedule { project_id: p.id.clone(), last_seen_name: p.name.clone(), schedule: s.clone() },
                        );
                        assert(local_views(local.schedules@) =~= prev.push(LocalScheduleView {
                            project_id: bootstrap_id(p0),
                            last_seen_name: p0.name,
                            schedule: p0.schedule->0,
                        }));
                        assert(l0 + migration_entries(ps.take(i + 1), existing) =~= (l0 + prev_entries).push(LocalScheduleView {
                            project_id: bootstrap_id(p0),
                            last_seen_name: p0.name,
                            schedule: p0.schedule->0,
                        }));
                        migrated = migrated + 1;
                    }
                },
                None => {},
            }
            p.schedule = None;
            if p.legacy_schedule_raw.is_some() {
                p.legacy_schedule = None;
                p.legacy_schedule_raw = None;
                p.schedule_error = None;
            }
        }
        let ghost prev_projects = project_views(projects@);
        projects.push(p);
        assert(project_views(projects@) =~= prev_projects.push(migrated_project(p0)));
        assert(ps.take(i + 1).map_values(|p: ProjectView| migrated_project(p)) =~= before.map_values(
            |p: ProjectView| migrated_project(p),
        ).push(migrated_project(p0)));
        i = i + 1;
    }
    assert(ps.take(user.projects.len() as int) =~= ps);
    user.projects = projects;
    match user.queue_scheduled_pushes {
        Some(q) => {
            local.queue_scheduled_pushes = q;
        },
        None => {},
    }
    user.queue_scheduled_pushes = None;
    Ok(migrated)
}

fn has_entry(v: &Vec<LocalSchedule>, id: &str) -> (r: bool)
    ensures
        r == schedule_ids(local_views(v@)).contains(id@),
{
    let ghost ids = schedule_ids(local_views(v@));
    let mut i: usize = 0;
    while i < v.len()
        invariant
            i <= v.len(),
            ids == schedule_ids(local_views(v@)),
            forall|j: int| 0 <= j < i ==> ids[j] != id@,
        decreases v.len() - i,
    {
        if same_text(v[i].project_id.as_str(), id) {
            assert(ids[i as int] == id@);
            return true;
        }
        i = i + 1;
    }
    false
}

proof fn lemma_no_entry_after_clear(ls: Seq<LocalScheduleView>, id: Text)
    ensures
        crate::settings::attached(ls.filter(other_entry(id)), id) is None,
    decreases ls.len(),
{
    if ls.len() > 0 {
        let d = ls.drop_last();
        lemma_no_entry_after_clear(d, id);
        assert(ls =~= d.push(ls.last()));
        d.lemma_filter_push(ls.last(), other_entry(id));
        if other_entry(id)(ls.last()) {
            assert(d.filter(other_entry(id)).push(ls.last()).drop_last() =~= d.filter(other_entry(id)));
        }
    } else {
        ls.lemma_filter_len(other_entry(id));
    }
}

/// What a schedule edit writes is what the next load attaches: after setting
/// a project's schedule the project's ID carries exactly that schedule, and
/// after clearing it, none.
pub proof fn law_set_schedule_then_load(ls: Seq<LocalScheduleView>, id: Text, name: Text, s: ScheduleView)
    ensures
        crate::settings::attached(with_entry(ls, id, name, Some(s)), id) == Some(s),
        crate::settings::attached(with_entry(ls, id, name, None), id) is None,
{
    lemma_no_entry_after_clear(ls, id);
}

} // verus!
