//! Which project a request acts on. The ID is authoritative wherever one is
//! given; a name is only a display label and a fallback for a request that
//! carries no ID. A scan-discovered folder is identified by the stable ID it
//! is listed under until it becomes a configured record.
use crate::filters::{
    first_pattern_error, lemma_first_pattern_error_none, lemma_first_pattern_error_prefix,
    pattern_error, pattern_verdict, validate_exclude_pattern, PatternVerdict,
};
use crate::identity::project_id_for_fields;
use crate::rclone_args::non_blank;
use crate::schedule::{Schedule, ScheduleView};
use crate::settings::merged_excludes;
use crate::local_edits::{discovered_id, discovered_record};
use crate::model::{
    canonical, canonical_remote_path, default_remote_of, join_child, join_remote_child_path,
    named, project_path_of, project_remote_of, project_views, remote_views, texts, AppConfig,
    ConfigView, Project, ProjectView, Text,
};
use crate::seqs::{first_index, is_first, lemma_first_index_is, lemma_first_index_none};
use crate::settings::{has_id, has_name};
use crate::text::{concat, concat3, contains_text, copy_text, is_blank, same_text, trim};
use vstd::prelude::*;

verus! {

broadcast use vstd::seq_lib::group_seq_properties;

/// How many stored projects satisfy `p`, and the first of them.
pub open spec fn count_of(ps: Seq<ProjectView>, p: spec_fn(ProjectView) -> bool) -> nat {
    ps.filter(p).len()
}

/// Count the projects with the given ID (`by_id`) or name, and find the first.
fn count_matching(projects: &Vec<Project>, key: &str, by_id: bool) -> (r: (usize, usize))
    ensures
        ({
            let pred = if by_id {
                has_id(key@)
            } else {
                has_name(key@)
            };
            let ps = project_views(projects@);
            &&& r.0 == count_of(ps, pred)
            &&& r.0 > 0 ==> first_index(ps, pred) == Some(r.1 as int) && r.1 < projects@.len()
            &&& r.0 == 0 ==> first_index(ps, pred) is None
        }),
{
    let ghost ps = project_views(projects@);
    let ghost pred = if by_id {
        has_id(key@)
    } else {
        has_name(key@)
    };
    let mut count: usize = 0;
    let mut first: usize = 0;
    let mut j: usize = 0;
    while j < projects.len()
        invariant
            j <= projects.len(),
            ps == project_views(projects@),
            pred == (if by_id {
                has_id(key@)
            } else {
                has_name(key@)
            }),
            count == ps.take(j as int).filter(pred).len(),
            count <= j,
            count > 0 ==> first < j && is_first(ps, pred, first as int),
            count == 0 ==> forall|t: int| 0 <= t < j ==> !pred(#[trigger] ps[t]),
        decreases projects.len() - j,
    {
        proof {
            assert(ps.take(j + 1) =~= ps.take(j as int).push(ps[j as int]));
            ps.take(j as int).lemma_filter_push(ps[j as int], pred);
        }
        let hit = if by_id {
            same_text(projects[j].id.as_str(), key)
        } else {
            same_text(projects[j].name.as_str(), key)
        };
        if hit {
            if count == 0 {
                first = j;
            }
            count = count + 1;
        }
        j = j + 1;
    }
    assert(ps.take(projects.len() as int) =~= ps);
    proof {
        if count > 0 {
            lemma_first_index_is(ps, pred, first as int);
        } else {
            lemma_first_index_none(ps, pred);
        }
    }
    (count, first)
}

/// The record of a folder found by scanning, before it is configured: the
/// default remote, the remote's base path, and the stable ID it is listed
/// under.
pub open spec fn discovered_project(c: ConfigView, name: Text, path: Text) -> ProjectView {
    discovered_record(name, path, default_remote_of(c), discovered_id(name, path, default_remote_of(c)))
}

pub open spec fn one_of(ps: Seq<ProjectView>, p: spec_fn(ProjectView) -> bool) -> ProjectView {
    ps[first_index(ps, p)->0]
}

/// The project called `name`: the one configured record with that name,
/// else the folder found by scanning (`scanned` is where, if anywhere).
pub open spec fn find_project_result(c: ConfigView, name: Text, scanned: Option<Text>) -> Result<ProjectView, Text> {
    let n = count_of(c.projects, has_name(name));
    if n > 1 {
        Err("Project name '"@ + name + "' is ambiguous"@)
    } else if n == 1 {
        Ok(one_of(c.projects, has_name(name)))
    } else {
        match scanned {
            Some(path) => Ok(discovered_project(c, name, path)),
            None => Err("Project '"@ + name + "' not found"@),
        }
    }
}

/// The record of the folder `path` found by scanning, named `name`.
pub fn discovered_project_record(cfg: &AppConfig, name: &str, path: &str) -> (r: Project)
    ensures
        r@ == discovered_project(cfg@, name@, path@),
{
    let remote = cfg.default_remote_name();
    proof {
        reveal_strlit("");
    }
    let id = project_id_for_fields(name, path, "", remote.as_str());
    let r = Project {
        id,
        name: copy_text(name),
        local_path: copy_text(path),
        remote_path: String::new(),
        remote,
        excludes: Vec::new(),
        schedule: None,
        schedule_error: None,
        legacy_schedule: None,
        legacy_schedule_raw: None,
    };
    assert(r@.excludes =~= Seq::<Text>::empty());
    assert(r@.remote_path =~= Seq::<char>::empty());
    r
}

/// Find a project by name. `scanned` is the folder of that name found in
/// the scan directories, if any; it is used only when no record has the name.
pub fn find_project(cfg: &AppConfig, name: &str, scanned: Option<&str>) -> (r: Result<Project, String>)
    ensures
        match find_project_result(cfg@, name@, crate::local_edits::opt_text(scanned)) {
            Ok(p) => r matches Ok(q) && q@ == p,
            Err(e) => r matches Err(x) && x@ == e,
        },
{
    let (count, first) = count_matching(&cfg.projects, name, false);
    if count > 1 {
        proof {
            reveal_strlit("Project name '");
            reveal_strlit("' is ambiguous");
        }
        return Err(concat3("Project name '", name, "' is ambiguous"));
    }
    if count == 1 {
        return Ok(cfg.projects[first].clone());
    }
    match scanned {
        Some(path) => Ok(discovered_project_record(cfg, name, path)),
        None => {
            proof {
                reveal_strlit("Project '");
                reveal_strlit("' not found");
            }
            Err(concat3("Project '", name, "' not found"))
        },
    }
}

pub open spec fn find_by_id_result(c: ConfigView, id: Text) -> Result<ProjectView, Text> {
    let n = count_of(c.projects, has_id(id));
    if n == 1 {
        Ok(one_of(c.projects, has_id(id)))
    } else if n == 0 {
        Err("Project ID '"@ + id + "' not found"@)
    } else {
        Err(duplicated_id_message(id))
    }
}

pub open spec fn duplicated_id_message(id: Text) -> Text {
    "Project ID '"@ + id + "' is duplicated"@
}

/// The one stored project with the given ID.
pub fn find_project_by_id(cfg: &AppConfig, project_id: &str) -> (r: Result<Project, String>)
    ensures
        match find_by_id_result(cfg@, project_id@) {
            Ok(p) => r matches Ok(q) && q@ == p,
            Err(e) => r matches Err(x) && x@ == e,
        },
{
    let (count, first) = count_matching(&cfg.projects, project_id, true);
    if count == 1 {
        Ok(cfg.projects[first].clone())
    } else if count == 0 {
        proof {
            reveal_strlit("Project ID '");
            reveal_strlit("' not found");
        }
        Err(concat3("Project ID '", project_id, "' not found"))
    } else {
        proof {
            reveal_strlit("Project ID '");
            reveal_strlit("' is duplicated");
        }
        Err(concat3("Project ID '", project_id, "' is duplicated"))
    }
}

/// The project a frontend request acts on. A non-blank `requested_id` is
/// authoritative: the stored record with it, or the scan-discovered folder
/// listed under exactly that ID; it never falls back to a same-named record.
pub open spec fn operation_target(c: ConfigView, name: Text, rid: Option<Text>, scanned: Option<Text>) -> Result<ProjectView, Text> {
    match rid {
        Some(id) if trim(id).len() > 0 => {
            let n = count_of(c.projects, has_id(id));
            if n > 1 {
                Err(duplicated_id_message(id))
            } else if n == 1 {
                Ok(one_of(c.projects, has_id(id)))
            } else {
                match find_project_result(c, name, scanned) {
                    Err(e) => Err(e),
                    Ok(d) => if count_of(c.projects, has_name(name)) > 0 || d.id != id {
                        Err("Project selection is stale for '"@ + name + "'; refresh the project list"@)
                    } else {
                        Ok(d)
                    },
                }
            }
        },
        _ => find_project_result(c, name, scanned),
    }
}

/// Resolve the project selected in the frontend before an operation claims it.
pub fn project_for_operation(
    cfg: &AppConfig,
    project_name: &str,
    requested_id: Option<&str>,
    scanned: Option<&str>,
) -> (r: Result<Project, String>)
    ensures
        match operation_target(cfg@, project_name@, crate::local_edits::opt_text(requested_id), crate::local_edits::opt_text(scanned)) {
            Ok(p) => r matches Ok(q) && q@ == p,
            Err(e) => r matches Err(x) && x@ == e,
        },
{
    match requested_id {
        Some(rid) => {
            if !is_blank(rid) {
                let (count, first) = count_matching(&cfg.projects, rid, true);
                if count > 1 {
                    proof {
                        reveal_strlit("Project ID '");
                        reveal_strlit("' is duplicated");
                    }
                    return Err(concat3("Project ID '", rid, "' is duplicated"));
                }
                if count == 1 {
                    return Ok(cfg.projects[first].clone());
                }
                let found = find_project(cfg, project_name, scanned)?;
                let (named_count, _) = count_matching(&cfg.projects, project_name, false);
                if named_count > 0 || !same_text(found.id.as_str(), rid) {
                    proof {
                        reveal_strlit("Project selection is stale for '");
                        reveal_strlit("'; refresh the project list");
                    }
                    return Err(
                        concat3(
                            "Project selection is stale for '",
                            project_name,
                            "'; refresh the project list",
                        ),
                    );
                }
                return Ok(found);
            }
        },
        None => {},
    }
    find_project(cfg, project_name, scanned)
}

/// The project a Push acts on once it holds its queue slot: by the ID it was
/// claimed under (the display name only labels the operation), or the
/// scan-discovered folder that is still listed under exactly that ID.
pub open spec fn push_target(c: ConfigView, id: Text, name: Text, scanned: Option<Text>) -> Result<ProjectView, Text> {
    let n = count_of(c.projects, has_id(id));
    if n > 1 {
        Err(duplicated_id_message(id))
    } else if n == 1 {
        Ok(one_of(c.projects, has_id(id)))
    } else {
        match find_project_result(c, name, scanned) {
            Err(e) => Err(e),
            Ok(d) => if count_of(c.projects, has_name(name)) > 0 {
                Err("Project ID '"@ + id + "' not found"@)
            } else if d.id == id {
                Ok(d)
            } else {
                Err("Project ID '"@ + id + "' is stale"@)
            },
        }
    }
}

pub fn resolve_project_for_push(
    cfg: &AppConfig,
    project_id: &str,
    project_name: &str,
    scanned: Option<&str>,
) -> (r: Result<Project, String>)
    ensures
        match push_target(cfg@, project_id@, project_name@, crate::local_edits::opt_text(scanned)) {
            Ok(p) => r matches Ok(q) && q@ == p,
            Err(e) => r matches Err(x) && x@ == e,
        },
{
    let (count, first) = count_matching(&cfg.projects, project_id, true);
    if count > 1 {
        proof {
            reveal_strlit("Project ID '");
            reveal_strlit("' is duplicated");
        }
        return Err(concat3("Project ID '", project_id, "' is duplicated"));
    }
    if count == 1 {
        return Ok(cfg.projects[first].clone());
    }
    let found = find_project(cfg, project_name, scanned)?;
    let (named_count, _) = count_matching(&cfg.projects, project_name, false);
    if named_count > 0 {
        proof {
            reveal_strlit("Project ID '");
            reveal_strlit("' not found");
        }
        return Err(concat3("Project ID '", project_id, "' not found"));
    }
    if same_text(found.id.as_str(), project_id) {
        Ok(found)
    } else {
        proof {
            reveal_strlit("Project ID '");
            reveal_strlit("' is stale");
        }
        Err(concat3("Project ID '", project_id, "' is stale"))
    }
}

// ---------------------------------------------------------------------------
// Browse Remote pulls.
/// The stored projects whose resolved target is exactly `remote:path`.
pub open spec fn targets(c: ConfigView, remote: Text, path: Text) -> spec_fn(ProjectView) -> bool {
    |p: ProjectView| project_remote_of(c, p).name == remote && project_path_of(c, p) == path
}

/// Which project a Browse Remote row stands for. With an ID, the one stored
/// record with it, and only while it is still the one record at the selected
/// target; without, the one record at the target, or (no record there) a
/// genuinely new project whose path must be the listed child of the remote.
pub open spec fn browse_pull_target(c: ConfigView, name: Text, pid: Option<Text>, remote: Text, remote_path: Text) -> Result<
    Option<ProjectView>,
    Text,
> {
    let rp = canonical(remote_path);
    let exact = c.projects.filter(targets(c, remote, rp));
    match first_index(c.remotes, named(remote)) {
        None => Err("Remote '"@ + remote + "' is not configured"@),
        Some(ri) => if rp.len() == 0 {
            Err("Browse Remote returned an empty remote path"@)
        } else {
            match pid {
                Some(id) if trim(id).len() > 0 => {
                    let n = count_of(c.projects, has_id(id));
                    if n == 0 {
                        Err("Browse Remote selection '"@ + id + "' is stale; refresh the remote list"@)
                    } else if n > 1 {
                        Err(duplicated_id_message(id))
                    } else if exact.len() != 1 || exact[0].id != one_of(c.projects, has_id(id)).id {
                        Err("Browse Remote selection for '"@ + name + "' no longer matches the selected remote path"@)
                    } else {
                        Ok(Some(one_of(c.projects, has_id(id))))
                    }
                },
                _ => if exact.len() == 1 {
                    Ok(Some(exact[0]))
                } else if exact.len() == 0 {
                    if join_child(c.remotes[ri].base_path, name) != rp {
                        Err("Browse Remote path '"@ + rp + "' is not a listed child of remote '"@ + remote + "'"@)
                    } else {
                        Ok(None)
                    }
                } else {
                    Err("Browse Remote target '"@ + name + "' is ambiguous for "@ + remote + ":"@ + rp
                        + "; refresh and resolve the duplicate project IDs"@)
                },
            }
        },
    }
}

/// The stored projects at `remote:path`, in order.
fn projects_at(cfg: &AppConfig, remote: &str, path: &str) -> (r: Vec<Project>)
    ensures
        project_views(r@) == cfg@.projects.filter(targets(cfg@, remote@, path@)),
{
    let ghost ps = cfg@.projects;
    let ghost pred = targets(cfg@, remote@, path@);
    let mut out: Vec<Project> = Vec::new();
    let mut i: usize = 0;
    while i < cfg.projects.len()
        invariant
            i <= cfg.projects.len(),
            ps == cfg@.projects,
            pred == targets(cfg@, remote@, path@),
            project_views(out@) == ps.take(i as int).filter(pred),
        decreases cfg.projects.len() - i,
    {
        proof {
            assert(ps.take(i + 1) =~= ps.take(i as int).push(ps[i as int]));
            ps.take(i as int).lemma_filter_push(ps[i as int], pred);
        }
        let r = cfg.project_remote(&cfg.projects[i]);
        let p = cfg.project_remote_path(&cfg.projects[i]);
        if same_text(r.name.as_str(), remote) && same_text(p.as_str(), path) {
            let ghost prev = project_views(out@);
            out.push(cfg.projects[i].clone());
            assert(project_views(out@) =~= prev.push(ps[i as int]));
        }
        i = i + 1;
    }
    assert(ps.take(cfg.projects.len() as int) =~= ps);
    out
}

fn configured_remote(cfg: &AppConfig, name: &str) -> (r: Option<usize>)
    ensures
        match r {
            Some(i) => first_index(cfg@.remotes, named(name@)) == Some(i as int) && i < cfg@.remotes.len(),
            None => first_index(cfg@.remotes, named(name@)) is None,
        },
{
    let ghost rs = cfg@.remotes;
    let mut i: usize = 0;
    while i < cfg.remotes.len()
        invariant
            i <= cfg.remotes.len(),
            rs == cfg@.remotes,
            forall|j: int| 0 <= j < i ==> !named(name@)(#[trigger] rs[j]),
        decreases cfg.remotes.len() - i,
    {
        if same_text(cfg.remotes[i].name.as_str(), name) {
            proof {
                lemma_first_index_is(rs, named(name@), i as int);
            }
            return Some(i);
        }
        i = i + 1;
    }
    proof {
        lemma_first_index_none(rs, named(name@));
    }
    None
}

/// Resolve a Browse Remote row without using its display name as identity.
/// Several records at the selected target fail closed instead of picking the
/// first same-named one.
pub fn resolve_browse_pull_project(
    cfg: &AppConfig,
    name: &str,
    project_id: Option<&str>,
    remote: &str,
    remote_path: &str,
) -> (r: Result<Option<Project>, String>)
    ensures
        match browse_pull_target(cfg@, name@, crate::local_edits::opt_text(project_id), remote@, remote_path@) {
            Ok(Some(p)) => r matches Ok(Some(q)) && q@ == p,
            Ok(None) => r matches Ok(None),
            Err(e) => r matches Err(x) && x@ == e,
        },
{
    let ri = match configured_remote(cfg, remote) {
        Some(i) => i,
        None => {
            proof {
                reveal_strlit("Remote '");
                reveal_strlit("' is not configured");
            }
            return Err(concat3("Remote '", remote, "' is not configured"));
        },
    };
    let rp = canonical_remote_path(remote_path);
    if rp.as_str().is_empty() {
        proof {
            reveal_strlit("Browse Remote returned an empty remote path");
        }
        return Err(String::from_str("Browse Remote returned an empty remote path"));
    }
    let exact = projects_at(cfg, remote, rp.as_str());
    match project_id {
        Some(id) => {
            if !is_blank(id) {
                let (count, first) = count_matching(&cfg.projects, id, true);
                if count == 0 {
                    proof {
                        reveal_strlit("Browse Remote selection '");
                        reveal_strlit("' is stale; refresh the remote list");
                    }
                    return Err(concat3("Browse Remote selection '", id, "' is stale; refresh the remote list"));
                }
                if count > 1 {
                    proof {
                        reveal_strlit("Project ID '");
                        reveal_strlit("' is duplicated");
                    }
                    return Err(concat3("Project ID '", id, "' is duplicated"));
                }
                if exact.len() != 1 || !same_text(exact[0].id.as_str(), cfg.projects[first].id.as_str()) {
                    proof {
                        reveal_strlit("Browse Remote selection for '");
                        reveal_strlit("' no longer matches the selected remote path");
                    }
                    return Err(
                        concat3(
                            "Browse Remote selection for '",
                            name,
                            "' no longer matches the selected remote path",
                        ),
                    );
                }
                return Ok(Some(cfg.projects[first].clone()));
            }
        },
        None => {},
    }
    if exact.len() == 1 {
        return Ok(Some(exact[0].clone()));
    }
    if exact.len() == 0 {
        let expected = join_remote_child_path(cfg.remotes[ri].base_path.as_str(), name);
        if !same_text(expected.as_str(), rp.as_str()) {
            let a = concat3("Browse Remote path '", rp.as_str(), "' is not a listed child of remote '");
            proof {
                reveal_strlit("Browse Remote path '");
                reveal_strlit("' is not a listed child of remote '");
                reveal_strlit("'");
            }
            return Err(concat3(a.as_str(), remote, "'"));
        }
        return Ok(None);
    }
    let a = concat3("Browse Remote target '", name, "' is ambiguous for ");
    let b = concat3(a.as_str(), remote, ":");
    proof {
        reveal_strlit("Browse Remote target '");
        reveal_strlit("' is ambiguous for ");
        reveal_strlit(":");
        reveal_strlit("; refresh and resolve the duplicate project IDs");
    }
    Err(concat3(b.as_str(), rp.as_str(), "; refresh and resolve the duplicate project IDs"))
}

/// Just before a finished Browse Pull is published: the target must still
/// belong to the record that was pulled (an existing record: it is the one
/// owner; a new one: there is no owner yet).
pub open spec fn browse_pull_owner_check(c: ConfigView, record_id: Text, existing_configured: bool, remote: Text, remote_path: Text) -> Option<Text> {
    let rp = canonical(remote_path);
    let owners = c.projects.filter(targets(c, remote, rp));
    if existing_configured {
        if owners.len() != 1 || owners[0].id != record_id {
            Some("Browse Pull target "@ + remote + ":"@ + rp + " changed or became ambiguous while pulling; refresh and retry"@)
        } else {
            None
        }
    } else if owners.len() > 0 {
        Some("Browse Pull target "@ + remote + ":"@ + rp + " became configured while pulling; refresh and retry"@)
    } else {
        None
    }
}

pub fn check_browse_pull_owner(
    cfg: &AppConfig,
    record_id: &str,
    existing_configured: bool,
    remote: &str,
    remote_path: &str,
) -> (r: Result<(), String>)
    ensures
        match browse_pull_owner_check(cfg@, record_id@, existing_configured, remote@, remote_path@) {
            None => r is Ok,
            Some(e) => r matches Err(x) && x@ == e,
        },
{
    let rp = canonical_remote_path(remote_path);
    let owners = projects_at(cfg, remote, rp.as_str());
    let a = concat3("Browse Pull target ", remote, ":");
    proof {
        reveal_strlit("Browse Pull target ");
        reveal_strlit(":");
    }
    if existing_configured {
        if owners.len() != 1 || !same_text(owners[0].id.as_str(), record_id) {
            proof {
                reveal_strlit(" changed or became ambiguous while pulling; refresh and retry");
            }
            return Err(concat3(a.as_str(), rp.as_str(), " changed or became ambiguous while pulling; refresh and retry"));
        }
    } else if owners.len() > 0 {
        proof {
            reveal_strlit(" became configured while pulling; refresh and retry");
        }
        return Err(concat3(a.as_str(), rp.as_str(), " became configured while pulling; refresh and retry"));
    }
    Ok(())
}

/// Publish a finished Browse Pull in the config: an existing record gets its
/// new local path, a new one is added.
pub fn publish_browse_pull(cfg: &mut AppConfig, record: &Project, existing_configured: bool)
    requires
        existing_configured ==> first_index(old(cfg)@.projects, has_id(record@.id)) is Some,
    ensures
        ({
            let c = old(cfg)@;
            if existing_configured {
                let i = first_index(c.projects, has_id(record@.id))->0;
                final(cfg)@ == (ConfigView {
                    projects: c.projects.update(i, ProjectView { local_path: record@.local_path, ..c.projects[i] }),
                    ..c
                })
            } else {
                final(cfg)@ == (ConfigView { projects: c.projects.push(record@), ..c })
            }
        }),
{
    if existing_configured {
        let (count, i) = count_matching(&cfg.projects, record.id.as_str(), true);
        proof {
            if count == 0 {
                assert(false);
            }
        }
        let ghost prev = project_views(cfg.projects@);
        let mut slot = cfg.projects[i].clone();
        slot.local_path = record.local_path.clone();
        cfg.projects.set(i, slot);
        assert(project_views(cfg.projects@) =~= prev.update(i as int, ProjectView { local_path: record@.local_path, ..prev[i as int] }));
    } else {
        let ghost prev = project_views(cfg.projects@);
        cfg.projects.push(record.clone());
        assert(project_views(cfg.projects@) =~= prev.push(record@));
    }
}

// ---------------------------------------------------------------------------
// Editing one project.
/// The excludes of a project editor, validated, not normalised: the first
/// refused pattern is the error; blank rows are dropped and each pattern is
/// kept once, in order.
pub fn clean_excludes(excludes: &Vec<String>) -> (r: Result<Vec<String>, String>)
    ensures
        match first_pattern_error(texts(excludes@)) {
            Some(e) => r matches Err(x) && x@ == e,
            None => r matches Ok(v) && texts(v@) == merged_excludes(Seq::empty(), non_blank(texts(excludes@))),
        },
{
    let ghost ps = texts(excludes@);
    let mut cleaned: Vec<String> = Vec::new();
    let mut i: usize = 0;
    while i < excludes.len()
        invariant
            i <= excludes.len(),
            ps == texts(excludes@),
            forall|j: int| 0 <= j < i ==> pattern_error(#[trigger] ps[j]) is None,
            texts(cleaned@) == merged_excludes(Seq::empty(), non_blank(ps.take(i as int))),
        decreases excludes.len() - i,
    {
        let ghost before = ps.take(i as int);
        assert(ps.take(i + 1).drop_last() =~= before);
        assert(ps.take(i + 1).last() == ps[i as int]);
        match validate_exclude_pattern(excludes[i].as_str()) {
            Err(e) => {
                proof {
                    lemma_first_pattern_error_prefix(ps, i as int);
                    assert(ps.subrange(i as int, ps.len() as int)[0] == ps[i as int]);
                }
                return Err(e);
            },
            Ok(None) => {},
            Ok(Some(valid)) => {
                assert(non_blank(ps.take(i + 1)) == non_blank(before).push(ps[i as int]));
                assert(non_blank(ps.take(i + 1)).drop_last() =~= non_blank(before));
                if !contains_text(&cleaned, valid) {
                    let ghost prev = texts(cleaned@);
                    cleaned.push(copy_text(valid));
                    assert(texts(cleaned@) =~= prev.push(ps[i as int]));
                }
            },
        }
        i = i + 1;
    }
    proof {
        lemma_first_pattern_error_none(ps);
    }
    assert(ps.take(excludes.len() as int) =~= ps);
    Ok(cleaned)
}

/// Store the cleaned excludes on the one project with the given ID.
pub fn set_excludes_in(cfg: &mut AppConfig, project_id: &str, cleaned: Vec<String>) -> (r: Result<(), String>)
    ensures
        ({
            let c = old(cfg)@;
            match find_by_id_result(c, project_id@) {
                Err(e) => r matches Err(x) && x@ == e && final(cfg)@ == c,
                Ok(_) => {
                    let i = first_index(c.projects, has_id(project_id@))->0;
                    r is Ok && final(cfg)@ == (ConfigView {
                        projects: c.projects.update(i, ProjectView { excludes: texts(cleaned@), ..c.projects[i] }),
                        ..c
                    })
                },
            }
        }),
{
    find_project_by_id(cfg, project_id)?;
    let (_, i) = count_matching(&cfg.projects, project_id, true);
    let ghost prev = project_views(cfg.projects@);
    let mut p = cfg.projects[i].clone();
    p.excludes = cleaned;
    cfg.projects.set(i, p);
    assert(project_views(cfg.projects@) =~= prev.update(i as int, ProjectView { excludes: texts(cleaned@), ..prev[i as int] }));
    Ok(())
}

/// A project's remote must be one of the configured remotes.
pub fn ensure_remote_configured(cfg: &AppConfig, remote: &str) -> (r: Result<(), String>)
    ensures
        r is Ok <==> first_index(cfg@.remotes, named(remote@)) is Some,
        r matches Err(e) ==> e@ == "Remote '"@ + remote@ + "' is not configured"@,
{
    match configured_remote(cfg, remote) {
        Some(_) => Ok(()),
        None => {
            proof {
                reveal_strlit("Remote '");
                reveal_strlit("' is not configured");
            }
            Err(concat3("Remote '", remote, "' is not configured"))
        },
    }
}

/// Point the project with the given ID at another remote and path. This
/// only changes future targeting; nothing already uploaded moves.
pub fn set_remote_in(cfg: &mut AppConfig, project_id: &str, remote: &str, remote_path: &str) -> (r: Result<(), String>)
    ensures
        ({
            let c = old(cfg)@;
            match first_index(c.projects, has_id(project_id@)) {
                None => r matches Err(x) && x@ == "Project ID '"@ + project_id@ + "' not found"@ && final(cfg)@ == c,
                Some(i) => r is Ok && final(cfg)@ == (ConfigView {
                    projects: c.projects.update(
                        i,
                        ProjectView { remote: remote@, remote_path: canonical(remote_path@), ..c.projects[i] },
                    ),
                    ..c
                }),
            }
        }),
{
    let (count, i) = count_matching(&cfg.projects, project_id, true);
    if count == 0 {
        proof {
            reveal_strlit("Project ID '");
            reveal_strlit("' not found");
        }
        return Err(concat3("Project ID '", project_id, "' not found"));
    }
    let ghost prev = project_views(cfg.projects@);
    let mut p = cfg.projects[i].clone();
    p.remote = copy_text(remote);
    p.remote_path = canonical_remote_path(remote_path);
    cfg.projects.set(i, p);
    assert(project_views(cfg.projects@) =~= prev.update(
        i as int,
        ProjectView { remote: remote@, remote_path: canonical(remote_path@), ..prev[i as int] },
    ));
    Ok(())
}

/// Make another configured remote the active one.
pub fn switch_remote_in(cfg: &mut AppConfig, remote_name: &str) -> (r: Result<(), String>)
    ensures
        r is Ok <==> first_index(old(cfg)@.remotes, named(remote_name@)) is Some,
        r matches Err(e) ==> e@ == "Remote '"@ + remote_name@ + "' not found in config"@ && final(cfg)@ == old(cfg)@,
        r is Ok ==> final(cfg)@ == (ConfigView { remote: remote_name@, ..old(cfg)@ }),
{
    match configured_remote(cfg, remote_name) {
        Some(_) => {
            cfg.remote = copy_text(remote_name);
            Ok(())
        },
        None => {
            proof {
                reveal_strlit("Remote '");
                reveal_strlit("' not found in config");
            }
            Err(concat3("Remote '", remote_name, "' not found in config"))
        },
    }
}

/// Whether a project's schedule changed across a Settings save: its record
/// is gone, or the record with its ID has another schedule.
pub open spec fn schedule_changed(after: Seq<ProjectView>, p: ProjectView) -> bool {
    match first_index(after, has_id(p.id)) {
        None => true,
        Some(i) => after[i].schedule != p.schedule,
    }
}

/// The IDs whose pending scheduled Push must be dropped after a Settings save.
pub fn changed_schedule_ids(before: &AppConfig, effective: &AppConfig) -> (r: Vec<String>)
    ensures
        texts(r@) == before@.projects.filter(|p: ProjectView| schedule_changed(effective@.projects, p)).map_values(
            |p: ProjectView| p.id,
        ),
{
    let ghost ps = before@.projects;
    let ghost pred = |p: ProjectView| schedule_changed(effective@.projects, p);
    let mut out: Vec<String> = Vec::new();
    let mut i: usize = 0;
    while i < before.projects.len()
        invariant
            i <= before.projects.len(),
            ps == before@.projects,
            pred == (|p: ProjectView| schedule_changed(effective@.projects, p)),
            texts(out@) == ps.take(i as int).filter(pred).map_values(|p: ProjectView| p.id),
        decreases before.projects.len() - i,
    {
        proof {
            assert(ps.take(i + 1) =~= ps.take(i as int).push(ps[i as int]));
            ps.take(i as int).lemma_filter_push(ps[i as int], pred);
        }
        let p = &before.projects[i];
        let (count, j) = count_matching(&effective.projects, p.id.as_str(), true);
        let changed = if count == 0 {
            true
        } else {
            !same_opt_schedule(&effective.projects[j].schedule, &p.schedule)
        };
        let ghost prev = texts(out@);
        if changed {
            out.push(p.id.clone());
            assert(texts(out@) =~= prev.push(ps[i as int].id));
            assert(ps.take(i + 1).filter(pred).map_values(|p: ProjectView| p.id) =~= ps.take(
                i as int,
            ).filter(pred).map_values(|p: ProjectView| p.id).push(ps[i as int].id));
        } else {
            assert(ps.take(i + 1).filter(pred).map_values(|p: ProjectView| p.id) =~= ps.take(
                i as int,
            ).filter(pred).map_values(|p: ProjectView| p.id));
        }
        i = i + 1;
    }
    assert(ps.take(before.projects.len() as int) =~= ps);
    out
}

fn same_opt_schedule(a: &Option<Schedule>, b: &Option<Schedule>) -> (r: bool)
    ensures
        r == (crate::local_edits::sched_opt(*a) == crate::local_edits::sched_opt(*b)),
{
    match (a, b) {
        (Some(x), Some(y)) => crate::scheduler::same_schedule(x, y),
        (None, None) => true,
        _ => false,
    }
}

/// A new interval schedule submitted without an origin (0) is anchored at
/// `now_ms`; every other schedule is kept as is.
pub fn stamp_schedule_origin(schedule: Schedule, now_ms: i64) -> (r: Schedule)
    ensures
        r@ == match schedule@ {
            ScheduleView::Interval { every, unit, origin_ms } => if origin_ms == 0 {
                ScheduleView::Interval { every, unit, origin_ms: now_ms }
            } else {
                schedule@
            },
            _ => schedule@,
        },
{
    match schedule {
        Schedule::Interval { every, unit, origin_ms } => {
            if origin_ms == 0 {
                Schedule::Interval { every, unit, origin_ms: now_ms }
            } else {
                Schedule::Interval { every, unit, origin_ms }
            }
        },
        other => other,
    }
}

// ---------------------------------------------------------------------------
// The staging directory of a pull.
/// `Path::new(p).file_name()` as text (`None` when there is none, or it is
/// not valid UTF-8).
pub uninterp spec fn path_file_name(p: Text) -> Option<Text>;

/// `Path::new(p).parent()` as text (`None` for a root or an empty path).
pub uninterp spec fn path_parent(p: Text) -> Option<Text>;

/// `Path::new(base).join(child)` as text.
pub uninterp spec fn path_join(base: Text, child: Text) -> Text;

/// `std::path::Path::file_name` of a path given as text, converted to text.
/// Path parsing depends on the text alone, so the result is named.
#[verifier::external_body]
fn file_name_of(p: &str) -> (r: Option<String>)
    ensures
        crate::model::text_view(r) == path_file_name(p@),
{
    std::path::Path::new(p).file_name().and_then(|n| n.to_str()).map(|n| n.to_string())
}

/// `std::path::Path::parent` of a path given as text, converted to text.
#[verifier::external_body]
fn parent_of(p: &str) -> (r: Option<String>)
    ensures
        crate::model::text_view(r) == path_parent(p@),
{
    std::path::Path::new(p).parent().map(|q| q.to_string_lossy().into_owned())
}

/// `std::path::Path::join`, with the result converted to text.
#[verifier::external_body]
pub(crate) fn join_path(base: &str, child: &str) -> (r: String)
    ensures
        r@ == path_join(base@, child@),
{
    std::path::Path::new(base).join(child).to_string_lossy().into_owned()
}

/// The record a Browse Pull downloads under while its files land in the
/// staging folder: the configured record, if there is one, pointed at the
/// staging folder; else a new record with the operation's ID, no excludes
/// and no schedule.
pub open spec fn browse_pull_staged(
    existing: Option<ProjectView>,
    id: Text,
    name: Text,
    staging: Text,
    remote_path: Text,
    remote: Text,
) -> ProjectView {
    match existing {
        Some(e) => ProjectView { local_path: staging, ..e },
        None => ProjectView {
            id,
            name,
            local_path: staging,
            remote_path,
            remote,
            excludes: Seq::empty(),
            schedule: None,
            schedule_error: None,
            legacy_schedule: None,
            legacy_schedule_raw: None,
        },
    }
}

pub fn browse_pull_staged_record(
    existing: Option<Project>,
    id: String,
    name: &str,
    staging: &str,
    remote_path: &str,
    remote: &str,
) -> (r: Project)
    ensures
        r@ == browse_pull_staged(
            match existing {
                Some(e) => Some(e@),
                None => None,
            },
            id@,
            name@,
            staging@,
            remote_path@,
            remote@,
        ),
{
    match existing {
        Some(mut e) => {
            e.local_path = copy_text(staging);
            e
        },
        None => {
            let r = Project {
                id,
                name: copy_text(name),
                local_path: copy_text(staging),
                remote_path: copy_text(remote_path),
                remote: copy_text(remote),
                excludes: Vec::new(),
                schedule: None,
                schedule_error: None,
                legacy_schedule: None,
                legacy_schedule_raw: None,
            };
            assert(r@.excludes =~= Seq::<Text>::empty());
            r
        },
    }
}

/// A unique hidden sibling of `final_path` for an in-progress pull. The
/// token is fresh for every pull, so concurrent pulls aimed at the same
/// destination cannot write into one another's staging tree, and the leading
/// dot keeps a partial tree out of project scanning.
pub fn staging_path(final_path: &str, token: &str) -> (r: Result<String, String>)
    ensures
        match path_file_name(final_path@) {
            None => r matches Err(e) && e@ == "Cannot derive a staging directory for '"@ + final_path@ + "'"@,
            Some(name) => r matches Ok(s) && s@ == path_join(
                match path_parent(final_path@) {
                    Some(p) => p,
                    None => "."@,
                },
                ".rcsync-partial-"@ + name + "-"@ + token@,
            ),
        },
{
    let name = match file_name_of(final_path) {
        Some(n) => n,
        None => {
            proof {
                reveal_strlit("Cannot derive a staging directory for '");
                reveal_strlit("'");
            }
            return Err(concat3("Cannot derive a staging directory for '", final_path, "'"));
        },
    };
    let parent = match parent_of(final_path) {
        Some(p) => p,
        None => {
            proof {
                reveal_strlit(".");
            }
            String::from_str(".")
        },
    };
    let a = concat3(".rcsync-partial-", name.as_str(), "-");
    let child = concat(a.as_str(), token);
    proof {
        reveal_strlit(".rcsync-partial-");
        reveal_strlit("-");
    }
    Ok(join_path(parent.as_str(), child.as_str()))
}

// ---------------------------------------------------------------------------
// Local folders by name.
pub open spec fn is_hit() -> spec_fn(bool) -> bool {
    |b: bool| b
}

/// The folder called `name` in the first scan directory that has it
/// (`hits[i]`: whether `dirs[i]/name` is a directory), written under the
/// scan directory as configured (a leading `~` is kept).
pub open spec fn scanned_local_path(dirs: Seq<Text>, name: Text, hits: Seq<bool>) -> Option<Text> {
    match first_index(hits, is_hit()) {
        Some(j) => Some(dirs[j] + "/"@ + name),
        None => None,
    }
}

/// Where the folder called `name` is: the first configured project of that
/// name when its folder exists (`exists[i]` for the i-th project), else a
/// scanned folder.
pub open spec fn local_path_choice(c: ConfigView, name: Text, exists: Seq<bool>, hits: Seq<bool>) -> Option<Text> {
    match first_index(c.projects, has_name(name)) {
        Some(i) if exists[i] => Some(c.projects[i].local_path),
        _ => scanned_local_path(c.scan_dirs, name, hits),
    }
}

pub fn find_scanned_local_path(cfg: &AppConfig, name: &str, hits: &Vec<bool>) -> (r: Option<String>)
    requires
        hits@.len() == cfg@.scan_dirs.len(),
    ensures
        crate::model::text_view(r) == scanned_local_path(cfg@.scan_dirs, name@, hits@),
{
    let mut j: usize = 0;
    while j < hits.len()
        invariant
            j <= hits.len(),
            hits@.len() == cfg@.scan_dirs.len(),
            forall|k: int| 0 <= k < j ==> !is_hit()(#[trigger] hits@[k]),
        decreases hits.len() - j,
    {
        if hits[j] {
            proof {
                lemma_first_index_is(hits@, is_hit(), j as int);
                reveal_strlit("/");
            }
            return Some(concat3(cfg.scan_dirs[j].as_str(), "/", name));
        }
        j = j + 1;
    }
    proof {
        lemma_first_index_none(hits@, is_hit());
    }
    None
}

/// The local folder of the project or remote folder called `name`; the
/// caller probes the file system: `exists[i]` tells whether the folder of the
/// i-th configured project exists, `hits` which scan directories hold a
/// directory of that name.
pub fn find_local_path(cfg: &AppConfig, name: &str, exists: &Vec<bool>, hits: &Vec<bool>) -> (r: Option<String>)
    requires
        exists@.len() == cfg@.projects.len(),
        hits@.len() == cfg@.scan_dirs.len(),
    ensures
        crate::model::text_view(r) == local_path_choice(cfg@, name@, exists@, hits@),
{
    let (count, first) = count_matching(&cfg.projects, name, false);
    if count > 0 && exists[first] {
        return Some(copy_text(cfg.projects[first].local_path.as_str()));
    }
    find_scanned_local_path(cfg, name, hits)
}

// ---------------------------------------------------------------------------
// Home-relative paths.
/// `dirs::home_dir()`, as displayed text. It depends on the environment, so
/// nothing is claimed of it.
#[verifier::external_body]
fn home_dir_text() -> (r: Option<String>) {
    dirs::home_dir().map(|home| home.display().to_string())
}

pub open spec fn expanded(path: Text, home: Option<Text>) -> Text {
    if crate::text::has_prefix(path, "~/"@) && home is Some {
        home->0 + path.skip(1)
    } else {
        path
    }
}

/// A path with a leading `~/` expanded against the home directory `home`.
pub fn expand_tilde_with(path: &str, home: Option<&str>) -> (r: String)
    ensures
        r@ == expanded(path@, crate::local_edits::opt_text(home)),
{
    proof {
        reveal_strlit("~/");
    }
    if crate::text::starts_with(path, "~/") {
        match home {
            Some(h) => {
                let v = crate::text::char_vec(path);
                let mut rest: Vec<char> = Vec::new();
                let mut i: usize = 1;
                while i < v.len()
                    invariant
                        1 <= i <= v.len(),
                        rest@ == v@.subrange(1, i as int),
                    decreases v.len() - i,
                {
                    rest.push(v[i]);
                    i = i + 1;
                    assert(rest@ =~= v@.subrange(1, i as int));
                }
                assert(rest@ =~= path@.skip(1));
                let tail = crate::text::string_from_chars(&rest);
                return concat(h, tail.as_str());
            },
            None => {},
        }
    }
    copy_text(path)
}

/// Expand a leading `~/` to the user's home directory.
pub fn expand_tilde(path: &str) -> (r: String)
    ensures
        !crate::text::has_prefix(path@, "~/"@) ==> r@ == path@,
        exists|home: Option<Text>| r@ == expanded(path@, home),
{
    let home = home_dir_text();
    match home {
        Some(h) => expand_tilde_with(path, Some(h.as_str())),
        None => expand_tilde_with(path, None),
    }
}

} // verus!
