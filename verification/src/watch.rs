//! Which folders the file watcher follows, and which projects a batch of
//! file events touched. The project ID is the join key the dashboard uses;
//! the name is only a label.
use crate::local_edits::discovered_id;
use crate::model::{default_remote_of, texts, AppConfig, ConfigView, ProjectView, Text};
use crate::order::{key_views, second_of, sorted_ids, text_lt};
use crate::seqs::{first_index, is_first, lemma_first_index_is, lemma_first_index_none};
use crate::status::{hidden, scanned_path};
use crate::text::{concat3, contains_text, copy_text, same_text, starts_with};
use vstd::prelude::*;

verus! {

broadcast use vstd::seq_lib::group_seq_properties;

/// A watched folder and the project it belongs to.
#[derive(Debug, PartialEq, Eq)]
pub struct WatchTarget {
    pub path: String,
    pub project_id: String,
    pub project: String,
}

pub struct TargetView {
    pub path: Text,
    pub project_id: Text,
    pub project: Text,
}

impl View for WatchTarget {
    type V = TargetView;

    open spec fn view(&self) -> TargetView {
        TargetView { path: self.path@, project_id: self.project_id@, project: self.project@ }
    }
}

pub open spec fn target_views(v: Seq<WatchTarget>) -> Seq<TargetView> {
    v.map_values(|t: WatchTarget| t@)
}

/// The targets of the configured projects whose folder exists (`dirs[i]` is
/// the expanded folder of the i-th project when it is a directory).
pub open spec fn configured_targets(ps: Seq<ProjectView>, dirs: Seq<Option<Text>>) -> Seq<TargetView>
    decreases ps.len(),
{
    if ps.len() == 0 || dirs.len() != ps.len() {
        Seq::empty()
    } else {
        let rest = configured_targets(ps.drop_last(), dirs.drop_last());
        match dirs.last() {
            Some(d) => rest.push(TargetView { path: d, project_id: ps.last().id, project: ps.last().name }),
            None => rest,
        }
    }
}

/// The targets of the scanned folders, given as (scan directory, folder name,
/// folder path): hidden folders and names already watched are skipped.
pub open spec fn scanned_targets(c: ConfigView, prior: Seq<TargetView>, found: Seq<(Text, Text, Text)>) -> Seq<TargetView>
    decreases found.len(),
{
    if found.len() == 0 {
        prior
    } else {
        let ts = scanned_targets(c, prior, found.drop_last());
        let (dir, name, path) = found.last();
        if hidden(name) || ts.map_values(|t: TargetView| t.project).contains(name) {
            ts
        } else {
            ts.push(TargetView {
                path,
                project_id: discovered_id(name, scanned_path(dir, name), default_remote_of(c)),
                project: name,
            })
        }
    }
}

fn has_target_named(ts: &Vec<WatchTarget>, name: &str) -> (r: bool)
    ensures
        r == target_views(ts@).map_values(|t: TargetView| t.project).contains(name@),
{
    let ghost names = target_views(ts@).map_values(|t: TargetView| t.project);
    let mut i: usize = 0;
    while i < ts.len()
        invariant
            i <= ts.len(),
            names == target_views(ts@).map_values(|t: TargetView| t.project),
            forall|j: int| 0 <= j < i ==> names[j] != name@,
        decreases ts.len() - i,
    {
        if same_text(ts[i].project.as_str(), name) {
            assert(names[i as int] == name@);
            return true;
        }
        i = i + 1;
    }
    false
}

/// The folders the watcher follows: each configured project's existing
/// folder, then each scanned folder that no watched project names.
pub fn watch_targets(
    cfg: &AppConfig,
    configured_dirs: &Vec<Option<String>>,
    found: &Vec<(String, String, String)>,
) -> (r: Vec<WatchTarget>)
    requires
        configured_dirs@.len() == cfg@.projects.len(),
    ensures
        target_views(r@) == scanned_targets(
            cfg@,
            configured_targets(cfg@.projects, configured_dirs@.map_values(|d: Option<String>| crate::model::text_view(d))),
            found@.map_values(|f: (String, String, String)| (f.0@, f.1@, f.2@)),
        ),
{
    let ghost ps = cfg@.projects;
    let ghost ds = configured_dirs@.map_values(|d: Option<String>| crate::model::text_view(d));
    let mut out: Vec<WatchTarget> = Vec::new();
    let mut i: usize = 0;
    while i < cfg.projects.len()
        invariant
            i <= cfg.projects.len(),
            configured_dirs@.len() == cfg@.projects.len(),
            ps == cfg@.projects,
            ds == configured_dirs@.map_values(|d: Option<String>| crate::model::text_view(d)),
            target_views(out@) == configured_targets(ps.take(i as int), ds.take(i as int)),
        decreases cfg.projects.len() - i,
    {
        assert(ps.take(i + 1).drop_last() =~= ps.take(i as int));
        assert(ds.take(i + 1).drop_last() =~= ds.take(i as int));
        assert(ps.take(i + 1).last() == ps[i as int]);
        assert(ds.take(i + 1).last() == ds[i as int]);
        match &configured_dirs[i] {
            Some(d) => {
                let ghost prev = target_views(out@);
                out.push(WatchTarget { path: d.clone(), project_id: cfg.projects[i].id.clone(), project: cfg.projects[i].name.clone() });
                assert(target_views(out@) =~= prev.push(TargetView { path: d@, project_id: ps[i as int].id, project: ps[i as int].name }));
            },
            None => {},
        }
        i = i + 1;
    }
    assert(ps.take(cfg.projects.len() as int) =~= ps);
    assert(ds.take(cfg.projects.len() as int) =~= ds);
    let ghost prior = target_views(out@);
    let ghost fv = found@.map_values(|f: (String, String, String)| (f.0@, f.1@, f.2@));
    let remote = cfg.default_remote_name();
    let mut j: usize = 0;
    while j < found.len()
        invariant
            j <= found.len(),
            fv == found@.map_values(|f: (String, String, String)| (f.0@, f.1@, f.2@)),
            remote@ == default_remote_of(cfg@),
            target_views(out@) == scanned_targets(cfg@, prior, fv.take(j as int)),
        decreases found.len() - j,
    {
        assert(fv.take(j + 1).drop_last() =~= fv.take(j as int));
        assert(fv.take(j + 1).last() == fv[j as int]);
        let dir = &found[j].0;
        let name = &found[j].1;
        let path = &found[j].2;
        proof {
            reveal_strlit(".");
        }
        if !starts_with(name.as_str(), ".") && !has_target_named(&out, name.as_str()) {
            proof {
                reveal_strlit("/");
                reveal_strlit("");
            }
            let local = concat3(dir.as_str(), "/", name.as_str());
            let id = crate::identity::project_id_for_fields(name.as_str(), local.as_str(), "", remote.as_str());
            let ghost prev = target_views(out@);
            out.push(WatchTarget { path: path.clone(), project_id: id, project: name.clone() });
            assert(target_views(out@) =~= prev.push(TargetView {
                path: path@,
                project_id: discovered_id(name@, scanned_path(dir@, name@), default_remote_of(cfg@)),
                project: name@,
            }));
        }
        j = j + 1;
    }
    assert(fv.take(found.len() as int) =~= fv);
    out
}

/// `Path::new(path).starts_with(dir)`: whether `dir` is a whole-component
/// prefix of `path`.
pub uninterp spec fn path_within(path: Text, dir: Text) -> bool;

/// `std::path::Path::starts_with` on two paths given as text. It compares
/// path components, which depends on the two texts alone, so it is named.
#[verifier::external_body]
fn path_starts_with(path: &str, dir: &str) -> (r: bool)
    ensures
        r == path_within(path@, dir@),
{
    std::path::Path::new(path).starts_with(dir)
}

pub open spec fn contains_path(ev: Text) -> spec_fn(TargetView) -> bool {
    |t: TargetView| path_within(ev, t.path)
}

/// The project IDs a batch of events touched: for each event, the project of
/// the first watched folder that holds it.
pub open spec fn touched(ts: Seq<TargetView>, evs: Seq<Text>) -> Set<Text> {
    Set::new(|id: Text| exists|k: int| 0 <= k < evs.len() && #[trigger] holder_id(ts, evs[k]) == Some(id))
}

/// The project of the first watched folder that holds `ev`.
pub open spec fn holder_id(ts: Seq<TargetView>, ev: Text) -> Option<Text> {
    match first_index(ts, contains_path(ev)) {
        Some(i) => Some(ts[i].project_id),
        None => None,
    }
}

/// The name of the first folder watched for project `id`.
pub open spec fn label_of(ts: Seq<TargetView>, id: Text) -> Option<Text> {
    match first_index(ts, with_id(id)) {
        Some(i) => Some(ts[i].project),
        None => None,
    }
}

pub open spec fn with_id(id: Text) -> spec_fn(TargetView) -> bool {
    |t: TargetView| t.project_id == id
}

/// A project that had local changes: the ID is the join key, the name a label.
#[derive(Debug, PartialEq, Eq)]
pub struct ChangedProject {
    pub project_id: String,
    pub project: String,
}

/// The payload sent to the frontend when local files change.
#[derive(Debug, PartialEq, Eq)]
pub struct FileChangeEvent {
    pub projects: Vec<ChangedProject>,
}

fn first_holder(ts: &Vec<WatchTarget>, ev: &str) -> (r: Option<usize>)
    ensures
        match r {
            Some(i) => first_index(target_views(ts@), contains_path(ev@)) == Some(i as int) && i < ts@.len(),
            None => first_index(target_views(ts@), contains_path(ev@)) is None,
        },
{
    let ghost tv = target_views(ts@);
    let mut i: usize = 0;
    while i < ts.len()
        invariant
            i <= ts.len(),
            tv == target_views(ts@),
            forall|j: int| 0 <= j < i ==> !contains_path(ev@)(#[trigger] tv[j]),
        decreases ts.len() - i,
    {
        if path_starts_with(ev, ts[i].path.as_str()) {
            proof {
                lemma_first_index_is(tv, contains_path(ev@), i as int);
            }
            return Some(i);
        }
        i = i + 1;
    }
    proof {
        lemma_first_index_none(tv, contains_path(ev@));
    }
    None
}

fn first_with_id(ts: &Vec<WatchTarget>, id: &str) -> (r: Option<usize>)
    ensures
        match r {
            Some(i) => first_index(target_views(ts@), with_id(id@)) == Some(i as int) && i < ts@.len(),
            None => first_index(target_views(ts@), with_id(id@)) is None,
        },
{
    let ghost tv = target_views(ts@);
    let mut i: usize = 0;
    while i < ts.len()
        invariant
            i <= ts.len(),
            tv == target_views(ts@),
            forall|j: int| 0 <= j < i ==> !with_id(id@)(#[trigger] tv[j]),
        decreases ts.len() - i,
    {
        if same_text(ts[i].project_id.as_str(), id) {
            proof {
                lemma_first_index_is(tv, with_id(id@), i as int);
            }
            return Some(i);
        }
        i = i + 1;
    }
    proof {
        lemma_first_index_none(tv, with_id(id@));
    }
    None
}

/// The projects a batch of file events touched (`event_paths`), each once,
/// in ID order, labelled with the name of the first folder watched for it.
pub fn changed_projects(targets: &Vec<WatchTarget>, event_paths: &Vec<String>) -> (r: FileChangeEvent)
    ensures
        ({
            let ts = target_views(targets@);
            let ids = r.projects@.map_values(|c: ChangedProject| c.project_id@);
            &&& ids.to_set() == touched(ts, texts(event_paths@))
            &&& ids.no_duplicates()
            &&& forall|a: int, b: int| 0 <= a < b < ids.len() ==> text_lt(ids[a], ids[b])
            &&& forall|k: int| 0 <= k < r.projects@.len() ==> label_of(ts, ids[k]) == Some((#[trigger] r.projects@[k]).project@)
        }),
{
    let ghost ts = target_views(targets@);
    let ghost evs = texts(event_paths@);
    let mut ids: Vec<(i64, String)> = Vec::new();
    let mut k: usize = 0;
    while k < event_paths.len()
        invariant
            k <= event_paths.len(),
            ts == target_views(targets@),
            evs == texts(event_paths@),
            forall|j: int| 0 <= j < ids@.len() ==> (#[trigger] ids@[j]).0 == 0,
            second_of(key_views(ids@)).no_duplicates(),
            second_of(key_views(ids@)).to_set() == touched(ts, evs.take(k as int)),
            forall|j: int| 0 <= j < ids@.len() ==> first_index(ts, with_id(#[trigger] second_of(key_views(ids@))[j])) is Some,
        decreases event_paths.len() - k,
    {
        let ghost before = second_of(key_views(ids@));
        match first_holder(targets, event_paths[k].as_str()) {
            Some(i) => {
                let id = &targets[i].project_id;
                let mut present = false;
                let mut m: usize = 0;
                while m < ids.len()
                    invariant
                        m <= ids.len(),
                        before == second_of(key_views(ids@)),
                        present == before.take(m as int).contains(id@),
                    decreases ids.len() - m,
                {
                    assert(before.take(m + 1) =~= before.take(m as int).push(before[m as int]));
                    if same_text(ids[m].1.as_str(), id.as_str()) {
                        present = true;
                    }
                    m = m + 1;
                }
                assert(before.take(ids.len() as int) =~= before);
                proof {
                    crate::seqs::lemma_first_index(ts, with_id(id@));
                    assert(with_id(id@)(ts[i as int]));
                }
                if !present {
                    ids.push((0, id.clone()));
                    proof {
                        assert(second_of(key_views(ids@)) =~= before.push(id@));
                    }
                }
                proof {
                    let now = second_of(key_views(ids@));
                    assert(evs.take(k + 1) =~= evs.take(k as int).push(evs[k as int]));
                    assert forall|x: Text| now.to_set().contains(x) <==> touched(ts, evs.take(k + 1)).contains(x) by {
                        if touched(ts, evs.take(k + 1)).contains(x) {
                            let w = choose|w: int| 0 <= w < evs.take(k + 1).len() && #[trigger] holder_id(ts, evs.take(k + 1)[w]) == Some(x);
                            if w < k {
                                assert(evs.take(k as int)[w] == evs.take(k + 1)[w]);
                                assert(touched(ts, evs.take(k as int)).contains(x));
                            }
                        }
                        if before.to_set().contains(x) {
                            let w = choose|w: int| 0 <= w < evs.take(k as int).len() && #[trigger] holder_id(ts, evs.take(k as int)[w]) == Some(x);
                            assert(evs.take(k + 1)[w] == evs.take(k as int)[w]);
                        }
                        if x == id@ {
                            assert(evs.take(k + 1)[k as int] == evs[k as int]);
                            assert(holder_id(ts, evs.take(k + 1)[k as int]) == Some(id@));
                        }
                    }
                    assert(now.to_set() =~= touched(ts, evs.take(k + 1)));
                }
            },
            None => {
                proof {
                    assert(evs.take(k + 1) =~= evs.take(k as int).push(evs[k as int]));
                    assert forall|x: Text| touched(ts, evs.take(k + 1)).contains(x) <==> touched(ts, evs.take(k as int)).contains(x) by {
                        if touched(ts, evs.take(k + 1)).contains(x) {
                            let w = choose|w: int| 0 <= w < evs.take(k + 1).len() && #[trigger] holder_id(ts, evs.take(k + 1)[w]) == Some(x);
                            if w < k {
                                assert(evs.take(k as int)[w] == evs.take(k + 1)[w]);
                            } else {
                                assert(evs.take(k + 1)[w] == evs[k as int]);
                            }
                        }
                        if touched(ts, evs.take(k as int)).contains(x) {
                            let w = choose|w: int| 0 <= w < evs.take(k as int).len() && #[trigger] holder_id(ts, evs.take(k as int)[w]) == Some(x);
                            assert(evs.take(k + 1)[w] == evs.take(k as int)[w]);
                        }
                    }
                    assert(touched(ts, evs.take(k + 1)) =~= touched(ts, evs.take(k as int)));
                }
            },
        }
        k = k + 1;
    }
    assert(evs.take(event_paths.len() as int) =~= evs);
    let ghost unsorted = second_of(key_views(ids@));
    let sorted = sorted_ids(ids);
    let mut projects: Vec<ChangedProject> = Vec::new();
    let mut t: usize = 0;
    while t < sorted.len()
        invariant
            t <= sorted.len(),
            ts == target_views(targets@),
            forall|j: int| 0 <= j < unsorted.len() ==> first_index(ts, with_id(#[trigger] unsorted[j])) is Some,
            sorted@.map_values(|s: String| s@).to_set() == unsorted.to_set(),
            projects@.len() == t,
            forall|j: int| 0 <= j < t ==> (#[trigger] projects@[j]).project_id@ == sorted@[j]@,
            forall|j: int| 0 <= j < t ==> label_of(ts, sorted@[j]@) == Some((#[trigger] projects@[j]).project@),
        decreases sorted.len() - t,
    {
        let ghost sid = sorted@[t as int]@;
        assert(sorted@.map_values(|s: String| s@)[t as int] == sid);
        assert(unsorted.to_set().contains(sid));
        proof {
            let w = choose|w: int| 0 <= w < unsorted.len() && unsorted[w] == sid;
            assert(first_index(ts, with_id(unsorted[w])) is Some);
        }
        match first_with_id(targets, sorted[t].as_str()) {
            Some(i) => {
                projects.push(ChangedProject { project_id: sorted[t].clone(), project: targets[i].project.clone() });
            },
            None => {
                proof {
                    assert(false);
                }
                projects.push(ChangedProject { project_id: sorted[t].clone(), project: String::new() });
            },
        }
        t = t + 1;
    }
    let r = FileChangeEvent { projects };
    assert(r.projects@.map_values(|c: ChangedProject| c.project_id@) =~= sorted@.map_values(|s: String| s@));
    r
}

} // verus!
