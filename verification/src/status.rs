//! The project list the dashboard shows: every configured project, then every
//! folder found in the scan directories that no project already names, in
//! name order.
use crate::model::{
    default_remote_of, project_path_of, project_views, retired_index_of, sched_view, text_view,
    texts, AppConfig, ConfigView, Project, ProjectView, RetiredView, Text,
};
use crate::order::{lemma_text_lt_irreflexive, lemma_text_lt_total, lemma_text_lt_transitive, text_less, text_lt};
use crate::schedule::{Schedule, ScheduleView};
use crate::selection::discovered_project;
use crate::text::{concat, concat3, contains_text, copy_text, same_text};
use vstd::prelude::*;

verus! {

broadcast use vstd::seq_lib::group_seq_properties;

#[derive(Debug, PartialEq, Eq)]
pub struct ProjectStatus {
    pub id: String,
    pub name: String,
    pub local_path: String,
    pub remote_path: String,
    pub remote: String,
    pub exists_locally: bool,
    pub schedule: Option<Schedule>,
    pub retired: bool,
    pub retired_target: Option<String>,
}

pub struct StatusView {
    pub id: Text,
    pub name: Text,
    pub local_path: Text,
    pub remote_path: Text,
    pub remote: Text,
    pub exists_locally: bool,
    pub schedule: Option<ScheduleView>,
    pub retired: bool,
    pub retired_target: Option<Text>,
}

impl View for ProjectStatus {
    type V = StatusView;

    open spec fn view(&self) -> StatusView {
        StatusView {
            id: self.id@,
            name: self.name@,
            local_path: self.local_path@,
            remote_path: self.remote_path@,
            remote: self.remote@,
            exists_locally: self.exists_locally,
            schedule: sched_view(self.schedule),
            retired: self.retired,
            retired_target: text_view(self.retired_target),
        }
    }
}

pub open spec fn status_views(v: Seq<ProjectStatus>) -> Seq<StatusView> {
    v.map_values(|s: ProjectStatus| s@)
}

/// `remote:path` of a retirement record.
pub open spec fn target_text(t: RetiredView) -> Text {
    t.remote + ":"@ + t.remote_path
}

/// The dashboard row of a project (`exists` tells whether its local folder
/// exists).
pub open spec fn status_of(c: ConfigView, p: ProjectView, exists: bool) -> StatusView {
    StatusView {
        id: p.id,
        name: p.name,
        local_path: p.local_path,
        remote_path: project_path_of(c, p),
        remote: if p.remote.len() == 0 {
            default_remote_of(c)
        } else {
            p.remote
        },
        exists_locally: exists,
        schedule: p.schedule,
        retired: retired_index_of(c, p) is Some,
        retired_target: match retired_index_of(c, p) {
            Some(i) => Some(target_text(c.retired_targets[i])),
            None => None,
        },
    }
}

/// The folder `dir/name` found by scanning.
pub open spec fn scanned_path(dir: Text, name: Text) -> Text {
    dir + "/"@ + name
}

pub open spec fn hidden(name: Text) -> bool {
    crate::text::has_prefix(name, "."@)
}

/// The rows of the scanned folders (given as (scan directory, folder name)
/// in scan order): hidden folders and names already listed are skipped.
/// Returns the rows and every name listed so far.
pub open spec fn scan_rows(c: ConfigView, seen: Seq<Text>, found: Seq<(Text, Text)>) -> (Seq<StatusView>, Seq<Text>)
    decreases found.len(),
{
    if found.len() == 0 {
        (Seq::empty(), seen)
    } else {
        let (rows, names) = scan_rows(c, seen, found.drop_last());
        let (dir, name) = found.last();
        if hidden(name) || names.contains(name) {
            (rows, names)
        } else {
            (rows.push(status_of(c, discovered_project(c, name, scanned_path(dir, name)), true)), names.push(name))
        }
    }
}

/// All rows before ordering: the configured projects, then the scanned ones.
pub open spec fn all_rows(c: ConfigView, exists: Seq<bool>, found: Seq<(Text, Text)>) -> Seq<StatusView> {
    let configured = Seq::new(c.projects.len(), |i: int| status_of(c, c.projects[i], exists[i]));
    configured + scan_rows(c, c.projects.map_values(|p: ProjectView| p.name), found).0
}

/// The rows of one name.
pub open spec fn row_named(n: Text) -> spec_fn(StatusView) -> bool {
    |s: StatusView| s.name == n
}

/// Ordered by name: no later name sorts before an earlier one.
pub open spec fn sorted_by_name(s: Seq<StatusView>) -> bool {
    forall|i: int, j: int| 0 <= i < j < s.len() ==> !text_lt(#[trigger] s[j].name, #[trigger] s[i].name)
}

fn status_row(cfg: &AppConfig, p: &Project, exists: bool) -> (r: ProjectStatus)
    ensures
        r@ == status_of(cfg@, p@, exists),
{
    let remote = if p.remote.as_str().is_empty() {
        cfg.default_remote_name()
    } else {
        p.remote.clone()
    };
    let retired = cfg.retired_target_for(p);
    let (is_retired, target) = match retired {
        Some(t) => {
            proof {
                reveal_strlit(":");
            }
            (true, Some(concat3(t.remote.as_str(), ":", t.remote_path.as_str())))
        },
        None => (false, None),
    };
    ProjectStatus {
        id: p.id.clone(),
        name: p.name.clone(),
        local_path: p.local_path.clone(),
        remote_path: cfg.project_remote_path(p),
        remote,
        exists_locally: exists,
        schedule: crate::model::clone_opt_schedule(&p.schedule),
        retired: is_retired,
        retired_target: target,
    }
}

proof fn lemma_name_order(a: Text, b: Text, c: Text)
    ensures
        !text_lt(a, a),
        !(text_lt(a, b) && text_lt(b, a)),
        a != b ==> text_lt(a, b) || text_lt(b, a),
        text_lt(a, b) && text_lt(b, c) ==> text_lt(a, c),
{
    lemma_text_lt_irreflexive(a);
    lemma_text_lt_total(a, b);
    if text_lt(a, b) && text_lt(b, c) {
        lemma_text_lt_transitive(a, b, c);
    }
}

/// The rows in name order (a stable insertion sort: rows of one name keep
/// their order).
fn sort_by_name(v: Vec<ProjectStatus>) -> (r: Vec<ProjectStatus>)
    ensures
        sorted_by_name(status_views(r@)),
        status_views(r@).to_multiset() == status_views(v@).to_multiset(),
        forall|n: Text| #[trigger] status_views(r@).filter(row_named(n)) == status_views(v@).filter(row_named(n)),
        r@.len() == v@.len(),
{
    let mut out: Vec<ProjectStatus> = Vec::new();
    let n = v.len();
    let ghost orig = status_views(v@);
    let mut v = v;
    let mut i: usize = 0;
    while i < n
        invariant
            i <= n,
            n == orig.len(),
            n == v@.len(),
            orig == status_views(v@),
            sorted_by_name(status_views(out@)),
            status_views(out@).to_multiset() == orig.take(i as int).to_multiset(),
            forall|m: Text| #[trigger] status_views(out@).filter(row_named(m)) == orig.take(i as int).filter(row_named(m)),
            out@.len() == i,
        decreases n - i,
    {
        let x = ProjectStatus {
            id: v[i].id.clone(),
            name: v[i].name.clone(),
            local_path: v[i].local_path.clone(),
            remote_path: v[i].remote_path.clone(),
            remote: v[i].remote.clone(),
            exists_locally: v[i].exists_locally,
            schedule: crate::model::clone_opt_schedule(&v[i].schedule),
            retired: v[i].retired,
            retired_target: crate::model::clone_opt_string(&v[i].retired_target),
        };
        assert(x@ == orig[i as int]);
        let mut p: usize = 0;
        while p < out.len() && !text_less(x.name.as_str(), out[p].name.as_str())
            invariant
                p <= out.len(),
                forall|j: int| 0 <= j < p ==> !text_lt(x@.name, #[trigger] status_views(out@)[j].name),
            decreases out.len() - p,
        {
            p = p + 1;
        }
        let ghost before = status_views(out@);
        out.insert(p, x);
        proof {
            let after = status_views(out@);
            let kx = x@;
            assert(after =~= before.insert(p as int, kx));
            assert forall|a: int, b: int| 0 <= a < b < after.len() implies !text_lt(
                #[trigger] after[b].name,
                #[trigger] after[a].name,
            ) by {
                if a < p && b == p {
                    lemma_name_order(before[a].name, kx.name, kx.name);
                    lemma_name_order(kx.name, before[a].name, kx.name);
                } else if a < p && b > p {
                    assert(after[b] == before[b - 1]);
                } else if a == p && b > p {
                    assert(after[b] == before[b - 1]);
                    if (p as int) < before.len() {
                        assert(text_lt(kx.name, before[p as int].name));
                        if b - 1 > p {
                            assert(!text_lt(before[b - 1].name, before[p as int].name));
                        }
                        lemma_name_order(kx.name, before[p as int].name, before[b - 1].name);
                        lemma_name_order(before[b - 1].name, kx.name, before[b - 1].name);
                        lemma_name_order(before[b - 1].name, kx.name, before[p as int].name);
                        lemma_name_order(before[p as int].name, before[b - 1].name, before[p as int].name);
                    }
                } else if a > p {
                    assert(after[a] == before[a - 1]);
                    assert(after[b] == before[b - 1]);
                }
            }
            assert(after.remove(p as int) =~= before);
            assert(after.to_multiset() =~= before.to_multiset().insert(kx));
            assert(orig.take(i + 1) =~= orig.take(i as int).push(orig[i as int]));
            assert forall|m: Text| #[trigger] after.filter(row_named(m)) == orig.take(i + 1).filter(row_named(m)) by {
                if kx.name == m {
                    assert forall|j: int| p <= j < before.len() implies !row_named(m)(#[trigger] before[j]) by {
                        assert(text_lt(kx.name, before[p as int].name));
                        lemma_name_order(kx.name, kx.name, kx.name);
                        if j > p {
                            assert(!text_lt(before[j].name, before[p as int].name));
                        }
                    }
                }
                crate::seqs::lemma_filter_insert(before, p as int, kx, row_named(m));
                orig.take(i as int).lemma_filter_push(orig[i as int], row_named(m));
            }
        }
        i = i + 1;
    }
    assert(orig.take(n as int) =~= orig);
    out
}

/// The dashboard's project list. `exists[i]` tells whether the local folder
/// of the i-th configured project exists; `found` lists the folders in the
/// scan directories as (scan directory, folder name), in scan order.
pub fn project_status_rows(cfg: &AppConfig, exists: &Vec<bool>, found: &Vec<(String, String)>) -> (r: Vec<ProjectStatus>)
    requires
        exists@.len() == cfg@.projects.len(),
    ensures
        sorted_by_name(status_views(r@)),
        status_views(r@).to_multiset() == all_rows(
            cfg@,
            exists@,
            found@.map_values(|f: (String, String)| (f.0@, f.1@)),
        ).to_multiset(),
        forall|n: Text| #[trigger] status_views(r@).filter(row_named(n)) == all_rows(
            cfg@,
            exists@,
            found@.map_values(|f: (String, String)| (f.0@, f.1@)),
        ).filter(row_named(n)),
        forall|i: int| 0 <= i < cfg@.projects.len() ==> #[trigger] project_listed(status_views(r@), cfg@, i),
{
    let ghost c = cfg@;
    let ghost fv = found@.map_values(|f: (String, String)| (f.0@, f.1@));
    let mut rows: Vec<ProjectStatus> = Vec::new();
    let mut seen: Vec<String> = Vec::new();
    let mut i: usize = 0;
    assert(status_views(rows@) =~= Seq::new(0 as nat, |k: int| status_of(c, c.projects[k], exists@[k])));
    assert(texts(seen@) =~= c.projects.take(0).map_values(|p: ProjectView| p.name));
    while i < cfg.projects.len()
        invariant
            i <= cfg.projects.len(),
            exists@.len() == cfg@.projects.len(),
            c == cfg@,
            status_views(rows@) == Seq::new(i as nat, |k: int| status_of(c, c.projects[k], exists@[k])),
            texts(seen@) == c.projects.take(i as int).map_values(|p: ProjectView| p.name),
        decreases cfg.projects.len() - i,
    {
        let row = status_row(cfg, &cfg.projects[i], exists[i]);
        let ghost prev = status_views(rows@);
        rows.push(row);
        assert(status_views(rows@) =~= prev.push(status_of(c, c.projects[i as int], exists@[i as int])));
        assert(status_views(rows@) =~= Seq::new((i + 1) as nat, |k: int| status_of(c, c.projects[k], exists@[k])));
        let ghost prev_seen = texts(seen@);
        seen.push(cfg.projects[i].name.clone());
        assert(texts(seen@) =~= prev_seen.push(c.projects[i as int].name));
        assert(c.projects.take(i + 1) =~= c.projects.take(i as int).push(c.projects[i as int]));
        assert(texts(seen@) =~= c.projects.take(i + 1).map_values(|p: ProjectView| p.name));
        i = i + 1;
    }
    assert(c.projects.take(cfg.projects.len() as int).map_values(|p: ProjectView| p.name) =~= c.projects.map_values(
        |p: ProjectView| p.name,
    ));
    let ghost configured = status_views(rows@);
    let ghost seen0 = texts(seen@);
    let mut j: usize = 0;
    while j < found.len()
        invariant
            j <= found.len(),
            c == cfg@,
            fv == found@.map_values(|f: (String, String)| (f.0@, f.1@)),
            status_views(rows@) == configured + scan_rows(c, seen0, fv.take(j as int)).0,
            texts(seen@) == scan_rows(c, seen0, fv.take(j as int)).1,
        decreases found.len() - j,
    {
        assert(fv.take(j + 1).drop_last() =~= fv.take(j as int));
        assert(fv.take(j + 1).last() == fv[j as int]);
        let dir = &found[j].0;
        let name = &found[j].1;
        let is_hidden = crate::text::starts_with(name.as_str(), ".");
        proof {
            reveal_strlit(".");
        }
        if !is_hidden && !contains_text(&seen, name.as_str()) {
            proof {
                reveal_strlit("/");
            }
            let path = concat3(dir.as_str(), "/", name.as_str());
            let d = crate::selection::discovered_project_record(cfg, name.as_str(), path.as_str());
            let row = status_row(cfg, &d, true);
            let ghost prev = status_views(rows@);
            rows.push(row);
            assert(status_views(rows@) =~= prev.push(row@));
            let ghost prev_seen = texts(seen@);
            seen.push(name.clone());
            assert(texts(seen@) =~= prev_seen.push(name@));
        }
        j = j + 1;
    }
    assert(fv.take(found.len() as int) =~= fv);
    let r = sort_by_name(rows);
    proof {
        let all = all_rows(c, exists@, fv);
        assert forall|i: int| 0 <= i < c.projects.len() implies row_of_project(#[trigger] all[i], c, c.projects[i]) by {
            law_configured_rows_carry_their_own_remote(c, exists@, fv, i);
        }
        lemma_rows_include_configured(c, all, status_views(r@));
    }
    r
}

proof fn lemma_same_multiset_contains(a: Seq<StatusView>, b: Seq<StatusView>, i: int)
    requires
        a.to_multiset() == b.to_multiset(),
        0 <= i < b.len(),
    ensures
        exists|k: int| 0 <= k < a.len() && a[k] == b[i],
{
    a.to_multiset_ensures();
    b.to_multiset_ensures();
    assert(b.contains(b[i]));
    assert(b.to_multiset().count(b[i]) > 0);
    assert(a.to_multiset().count(b[i]) > 0);
    assert(a.contains(b[i]));
}

/// `row` is the dashboard row of the project `p`: its ID and name, and the
/// remote it lives on, its own when it names one, else the default remote.
pub open spec fn row_of_project(row: StatusView, c: ConfigView, p: ProjectView) -> bool {
    &&& row.id == p.id
    &&& row.name == p.name
    &&& p.remote.len() > 0 ==> row.remote == p.remote
    &&& p.remote.len() == 0 ==> row.remote == default_remote_of(c)
}

/// Some row of `rows` is the row of the `i`-th configured project.
pub open spec fn project_listed(rows: Seq<StatusView>, c: ConfigView, i: int) -> bool {
    exists|k: int| 0 <= k < rows.len() && #[trigger] row_of_project(rows[k], c, c.projects[i])
}

proof fn lemma_rows_include_configured(
    c: ConfigView,
    all: Seq<StatusView>,
    rows: Seq<StatusView>,
)
    requires
        rows.to_multiset() == all.to_multiset(),
        all.len() >= c.projects.len(),
        forall|i: int| 0 <= i < c.projects.len() ==> row_of_project(#[trigger] all[i], c, c.projects[i]),
    ensures
        forall|i: int| 0 <= i < c.projects.len() ==> #[trigger] project_listed(rows, c, i),
{
    assert forall|i: int| 0 <= i < c.projects.len() implies #[trigger] project_listed(rows, c, i) by {
        assert(row_of_project(all[i], c, c.projects[i]));
        lemma_same_multiset_contains(rows, all, i);
        let k = choose|k: int| 0 <= k < rows.len() && rows[k] == all[i];
        assert(row_of_project(rows[k], c, c.projects[i]));
    }
}

/// Each configured project's row is that project's: its ID, name, local
/// path and whether its folder exists, and the remote it lives on, its own
/// when it names one, else the default remote.
pub proof fn law_configured_rows_carry_their_own_remote(
    c: ConfigView,
    exists: Seq<bool>,
    found: Seq<(Text, Text)>,
    i: int,
)
    requires
        0 <= i < c.projects.len(),
    ensures
        ({
            let row = all_rows(c, exists, found)[i];
            let p = c.projects[i];
            &&& row.id == p.id
            &&& row.name == p.name
            &&& row.local_path == p.local_path
            &&& row.exists_locally == exists[i]
            &&& row.schedule == p.schedule
            &&& p.remote.len() > 0 ==> row.remote == p.remote
            &&& p.remote.len() == 0 ==> row.remote == default_remote_of(c)
        }),
{
    let configured = Seq::new(c.projects.len(), |k: int| status_of(c, c.projects[k], exists[k]));
    assert(all_rows(c, exists, found)[i] == configured[i]);
}

} // verus!
