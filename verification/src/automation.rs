//! The device-local automation layer: which projects this machine pushes on a
//! schedule, and whether scheduled Pushes queue. It deliberately lives outside
//! the portable project config, so syncing project definitions can never sync
//! an automatic Push schedule to another machine. A malformed layer fails
//! closed for automation while leaving the shared project data usable.
use crate::filters::{debug_form, debug_text};
use crate::model::{text_view, texts, Text};
use crate::schedule::{valid, Schedule, ScheduleView};
use crate::order::{lemma_text_lt_irreflexive, lemma_text_lt_total, lemma_text_lt_transitive, text_less, text_lt};
use crate::seqs::dup_list;
use crate::text::{concat, concat3, contains_text, copy_text, is_blank, same_text, trim};
use vstd::prelude::*;

verus! {

broadcast use vstd::seq_lib::group_seq_properties;

/// The schema tag of the device-local file.
pub open spec fn local_schema() -> Text {
    "rcsync.local.v1"@
}

/// One project's schedule on this device, keyed by the project's stable ID.
#[derive(Debug, PartialEq, Eq)]
pub struct LocalSchedule {
    pub project_id: String,
    pub last_seen_name: String,
    pub schedule: Schedule,
}

pub struct LocalScheduleView {
    pub project_id: Text,
    pub last_seen_name: Text,
    pub schedule: ScheduleView,
}

impl View for LocalSchedule {
    type V = LocalScheduleView;

    open spec fn view(&self) -> LocalScheduleView {
        LocalScheduleView {
            project_id: self.project_id@,
            last_seen_name: self.last_seen_name@,
            schedule: self.schedule@,
        }
    }
}

impl Clone for LocalSchedule {
    fn clone(&self) -> (r: Self)
        ensures
            r@ == self@,
    {
        LocalSchedule {
            project_id: self.project_id.clone(),
            last_seen_name: self.last_seen_name.clone(),
            schedule: self.schedule.clone(),
        }
    }
}

pub open spec fn local_views(v: Seq<LocalSchedule>) -> Seq<LocalScheduleView> {
    v.map_values(|s: LocalSchedule| s@)
}

pub open spec fn schedule_ids(v: Seq<LocalScheduleView>) -> Seq<Text> {
    v.map_values(|s: LocalScheduleView| s.project_id)
}

#[derive(Debug, PartialEq, Eq)]
pub struct LocalAutomationConfig {
    pub schema: String,
    pub device_id: String,
    pub display_name: String,
    pub aliases: Vec<String>,
    pub queue_scheduled_pushes: bool,
    pub schedules: Vec<LocalSchedule>,
}

pub struct LocalView {
    pub schema: Text,
    pub device_id: Text,
    pub display_name: Text,
    pub aliases: Seq<Text>,
    pub queue_scheduled_pushes: bool,
    pub schedules: Seq<LocalScheduleView>,
}

impl View for LocalAutomationConfig {
    type V = LocalView;

    open spec fn view(&self) -> LocalView {
        LocalView {
            schema: self.schema@,
            device_id: self.device_id@,
            display_name: self.display_name@,
            aliases: texts(self.aliases@),
            queue_scheduled_pushes: self.queue_scheduled_pushes,
            schedules: local_views(self.schedules@),
        }
    }
}

pub fn clone_local_schedules(v: &Vec<LocalSchedule>) -> (r: Vec<LocalSchedule>)
    ensures
        local_views(r@) == local_views(v@),
{
    let mut out: Vec<LocalSchedule> = Vec::new();
    let mut i: usize = 0;
    while i < v.len()
        invariant
            i <= v.len(),
            local_views(out@) == local_views(v@).take(i as int),
        decreases v.len() - i,
    {
        let ghost prev = local_views(out@);
        let c = v[i].clone();
        out.push(c);
        assert(local_views(out@) =~= prev.push(v@[i as int]@));
        assert(local_views(v@).take(i + 1) =~= local_views(v@).take(i as int).push(v@[i as int]@));
        i = i + 1;
    }
    assert(local_views(v@).take(v.len() as int) =~= local_views(v@));
    out
}

impl Clone for LocalAutomationConfig {
    fn clone(&self) -> (r: Self)
        ensures
            r@ == self@,
    {
        LocalAutomationConfig {
            schema: self.schema.clone(),
            device_id: self.device_id.clone(),
            display_name: self.display_name.clone(),
            aliases: crate::model::clone_strings(&self.aliases),
            queue_scheduled_pushes: self.queue_scheduled_pushes,
            schedules: clone_local_schedules(&self.schedules),
        }
    }
}

/// The layer of a device that has none yet: queueing on, no schedules.
pub open spec fn default_local_view(device_id: Text, label: Text) -> LocalView {
    LocalView {
        schema: local_schema(),
        device_id,
        display_name: label,
        aliases: Seq::empty(),
        queue_scheduled_pushes: true,
        schedules: Seq::empty(),
    }
}

/// The layer of a device that has none yet, for the device with the given
/// stable ID and machine label.
pub fn default_local_automation(device_id: &str, display_name: &str) -> (r: LocalAutomationConfig)
    ensures
        r@ == default_local_view(device_id@, display_name@),
{
    let r = LocalAutomationConfig {
        schema: String::from_str("rcsync.local.v1"),
        device_id: copy_text(device_id),
        display_name: copy_text(display_name),
        aliases: Vec::new(),
        queue_scheduled_pushes: true,
        schedules: Vec::new(),
    };
    proof {
        reveal_strlit("rcsync.local.v1");
    }
    assert(r@.aliases =~= Seq::<Text>::empty());
    assert(r@.schedules =~= Seq::<LocalScheduleView>::empty());
    r
}

// ---------------------------------------------------------------------------
// Reading the layer.
/// The `schedules` field as read from the file: absent (or null), not an
/// array, or an array whose entries each parsed or failed to.
pub enum SchedulesField {
    Absent,
    NotArray,
    Entries(Vec<Result<LocalSchedule, String>>),
}

/// The device-local file as parsed, before any check.
pub struct LocalAutomationWire {
    pub schema: Option<String>,
    pub device_id: Option<String>,
    pub display_name: String,
    pub aliases: Vec<String>,
    pub queue_scheduled_pushes: bool,
    pub schedules: SchedulesField,
}

/// What reading the device-local file gave: no file, a file that does not
/// parse (with the parser's message), or the parsed content.
pub enum LocalRead {
    Missing,
    Unparsable(String),
    Parsed(LocalAutomationWire),
}

pub open spec fn entry_view(e: Result<LocalSchedule, String>) -> Result<LocalScheduleView, Text> {
    match e {
        Ok(s) => Ok(s@),
        Err(x) => Err(x@),
    }
}

pub open spec fn entry_views(v: Seq<Result<LocalSchedule, String>>) -> Seq<Result<LocalScheduleView, Text>> {
    v.map_values(|e: Result<LocalSchedule, String>| entry_view(e))
}

/// An entry is used when it parsed, names a project and holds a valid schedule.
pub open spec fn entry_kept(e: Result<LocalScheduleView, Text>) -> bool {
    e matches Ok(s) && trim(s.project_id).len() > 0 && valid(s.schedule)
}

/// The warning an ignored entry produces.
pub open spec fn entry_warning(e: Result<LocalScheduleView, Text>) -> Seq<Text> {
    match e {
        Err(x) => seq!["Invalid device-local schedule; it was ignored: "@ + x],
        Ok(s) => if trim(s.project_id).len() == 0 {
            seq!["Device-local schedule has no project ID; it was ignored"@]
        } else if !valid(s.schedule) {
            seq!["Device-local schedule for '"@ + s.last_seen_name + "' is invalid; it was ignored"@]
        } else {
            Seq::empty()
        },
    }
}

pub open spec fn kept_entries(es: Seq<Result<LocalScheduleView, Text>>) -> Seq<LocalScheduleView>
    decreases es.len(),
{
    if es.len() == 0 {
        Seq::empty()
    } else if entry_kept(es.last()) {
        kept_entries(es.drop_last()).push(es.last()->Ok_0)
    } else {
        kept_entries(es.drop_last())
    }
}

pub open spec fn entry_warnings(es: Seq<Result<LocalScheduleView, Text>>) -> Seq<Text>
    decreases es.len(),
{
    if es.len() == 0 {
        Seq::empty()
    } else {
        entry_warnings(es.drop_last()) + entry_warning(es.last())
    }
}

pub open spec fn outside(ids: Seq<Text>) -> spec_fn(LocalScheduleView) -> bool {
    |s: LocalScheduleView| !ids.contains(s.project_id)
}

pub open spec fn duplicate_warning(id: Text) -> Text {
    "Duplicate device-local schedules for project ID '"@ + id + "'; that schedule is disabled"@
}

/// The schedules in effect: the used entries, except every one whose project
/// ID has more than one entry (that project's automation is disabled).
pub open spec fn loaded_schedules(es: Seq<Result<LocalScheduleView, Text>>) -> Seq<LocalScheduleView> {
    let k = kept_entries(es);
    k.filter(outside(dup_list(schedule_ids(k))))
}

/// A warning per ignored entry, in order, then one per duplicated project ID.
pub open spec fn load_warnings(es: Seq<Result<LocalScheduleView, Text>>) -> Seq<Text> {
    entry_warnings(es) + dup_list(schedule_ids(kept_entries(es))).map_values(
        |id: Text| duplicate_warning(id),
    )
}

pub open spec fn stored_entries(ls: Seq<LocalScheduleView>) -> Seq<Result<LocalScheduleView, Text>> {
    ls.map_values(|s: LocalScheduleView| Ok::<LocalScheduleView, Text>(s))
}

proof fn lemma_stored_entries_kept(ls: Seq<LocalScheduleView>)
    requires
        forall|i: int| 0 <= i < ls.len() ==> trim((#[trigger] ls[i]).project_id).len() > 0 && valid(ls[i].schedule),
    ensures
        kept_entries(stored_entries(ls)) == ls,
        entry_warnings(stored_entries(ls)) == Seq::<Text>::empty(),
    decreases ls.len(),
{
    if ls.len() > 0 {
        let d = ls.drop_last();
        lemma_stored_entries_kept(d);
        assert(stored_entries(ls).drop_last() =~= stored_entries(d));
        assert(stored_entries(ls).last() == Ok::<LocalScheduleView, Text>(ls.last()));
        assert(ls =~= d.push(ls.last()));
        assert(entry_warnings(stored_entries(ls)) =~= Seq::<Text>::empty());
    }
}

/// A written layer reads back as written: schedules that name their
/// projects, hold valid schedules and name each project once load exactly,
/// in order, with no warning.
pub proof fn law_saved_schedules_load_back(ls: Seq<LocalScheduleView>)
    requires
        forall|i: int| 0 <= i < ls.len() ==> trim((#[trigger] ls[i]).project_id).len() > 0 && valid(ls[i].schedule),
        schedule_ids(ls).no_duplicates(),
    ensures
        loaded_schedules(stored_entries(ls)) == ls,
        load_warnings(stored_entries(ls)) == Seq::<Text>::empty(),
{
    lemma_stored_entries_kept(ls);
    let ids = schedule_ids(ls);
    let dups = dup_list(ids);
    if dups.len() > 0 {
        crate::seqs::lemma_dup_list(ids, dups[0]);
        assert(dups.contains(dups[0]));
    }
    assert(dups =~= Seq::<Text>::empty());
    lemma_filter_all(ls, outside(dups));
    assert(dups.map_values(|id: Text| duplicate_warning(id)) =~= Seq::<Text>::empty());
    assert(load_warnings(stored_entries(ls)) =~= Seq::<Text>::empty());
}

proof fn lemma_filter_all(s: Seq<LocalScheduleView>, p: spec_fn(LocalScheduleView) -> bool)
    requires
        forall|i: int| 0 <= i < s.len() ==> p(#[trigger] s[i]),
    ensures
        s.filter(p) == s,
    decreases s.len(),
{
    if s.len() > 0 {
        let d = s.drop_last();
        lemma_filter_all(d, p);
        d.lemma_filter_push(s.last(), p);
        assert(s =~= d.push(s.last()));
    }
}

/// `format!("{:?}", option)` for an optional string.
pub open spec fn option_debug(s: Option<Text>) -> Text {
    match s {
        None => "None"@,
        Some(t) => "Some("@ + debug_form(t) + ")"@,
    }
}

pub open spec fn unparsable_warning(e: Text) -> Text {
    "Could not parse device-local automation config; schedules are disabled: "@ + e
}

pub open spec fn schema_warning(schema: Option<Text>) -> Text {
    "Unsupported device-local automation schema; schedules are disabled: "@ + option_debug(schema)
}

pub open spec fn foreign_device_warning() -> Text {
    "Device-local automation belongs to a different device; schedules are disabled"@
}

pub open spec fn not_array_warning() -> Text {
    "Device-local schedules must be an array; schedules are disabled"@
}

fn has_schedule_for(v: &Vec<LocalSchedule>, id: &str) -> (r: bool)
    ensures
        r == schedule_ids(local_views(v@)).contains(id@),
{
    let ghost ids = schedule_ids(local_views(v@));
    let mut i: usize = 0;
    while i < v.len()
        invariant
            i <= v.len(),
            ids == schedule_ids(local_views(v@)),
            forall|j: int| 0 <= j < i ==> ids[j] != id@,
        decreases v.len() - i,
    {
        if same_text(v[i].project_id.as_str(), id) {
            assert(ids[i as int] == id@);
            return true;
        }
        i = i + 1;
    }
    false
}

fn option_debug_text(s: &Option<String>) -> (r: String)
    ensures
        r@ == option_debug(text_view(*s)),
{
    match s {
        None => {
            proof {
                reveal_strlit("None");
            }
            String::from_str("None")
        },
        Some(t) => {
            let d = debug_text(t.as_str());
            proof {
                reveal_strlit("Some(");
                reveal_strlit(")");
            }
            concat3("Some(", d.as_str(), ")")
        },
    }
}

/// Sort the entries of the `schedules` array: the used ones, and a warning
/// for each ignored one and for each duplicated project ID.
fn filter_entries(es: &Vec<Result<LocalSchedule, String>>) -> (r: (Vec<LocalSchedule>, Vec<String>))
    ensures
        local_views(r.0@) == loaded_schedules(entry_views(es@)),
        texts(r.1@) == load_warnings(entry_views(es@)),
{
    let ghost ev = entry_views(es@);
    let mut kept: Vec<LocalSchedule> = Vec::new();
    let mut warnings: Vec<String> = Vec::new();
    let mut dups: Vec<String> = Vec::new();
    let mut i: usize = 0;
    while i < es.len()
        invariant
            i <= es.len(),
            ev == entry_views(es@),
            local_views(kept@) == kept_entries(ev.take(i as int)),
            texts(warnings@) == entry_warnings(ev.take(i as int)),
            texts(dups@) == dup_list(schedule_ids(local_views(kept@))),
        decreases es.len() - i,
    {
        let ghost before = ev.take(i as int);
        assert(ev.take(i + 1).drop_last() =~= before);
        assert(ev.take(i + 1).last() == ev[i as int]);
        let ghost old_ids = schedule_ids(local_views(kept@));
        let ghost old_warnings = texts(warnings@);
        match &es[i] {
            Err(e) => {
                let w = concat("Invalid device-local schedule; it was ignored: ", e.as_str());
                proof {
                    reveal_strlit("Invalid device-local schedule; it was ignored: ");
                }
                warnings.push(w);
                assert(texts(warnings@) =~= old_warnings + entry_warning(ev[i as int]));
            },
            Ok(s) => {
                if is_blank(s.project_id.as_str()) {
                    proof {
                        reveal_strlit("Device-local schedule has no project ID; it was ignored");
                    }
                    warnings.push(
                        String::from_str("Device-local schedule has no project ID; it was ignored"),
                    );
                    assert(texts(warnings@) =~= old_warnings + entry_warning(ev[i as int]));
                } else if s.schedule.validate().is_err() {
                    let w = concat3(
                        "Device-local schedule for '",
                        s.last_seen_name.as_str(),
                        "' is invalid; it was ignored",
                    );
                    proof {
                        reveal_strlit("Device-local schedule for '");
                        reveal_strlit("' is invalid; it was ignored");
                    }
                    warnings.push(w);
                    assert(texts(warnings@) =~= old_warnings + entry_warning(ev[i as int]));
                } else {
                    let seen = has_schedule_for(&kept, s.project_id.as_str());
                    let listed = contains_text(&dups, s.project_id.as_str());
                    kept.push(s.clone());
                    assert(schedule_ids(local_views(kept@)) =~= old_ids.push(s@.project_id));
                    assert(schedule_ids(local_views(kept@)).drop_last() =~= old_ids);
                    if seen && !listed {
                        dups.push(copy_text(s.project_id.as_str()));
                    }
                    assert(texts(dups@) =~= dup_list(schedule_ids(local_views(kept@))));
                    assert(local_views(kept@) =~= kept_entries(before).push(s@));
                    assert(texts(warnings@) =~= old_warnings + entry_warning(ev[i as int]));
                }
            },
        }
        i = i + 1;
    }
    assert(ev.take(es.len() as int) =~= ev);
    let ghost k = local_views(kept@);
    let ghost d = texts(dups@);
    let mut out: Vec<LocalSchedule> = Vec::new();
    let mut j: usize = 0;
    while j < kept.len()
        invariant
            j <= kept.len(),
            k == local_views(kept@),
            d == texts(dups@),
            local_views(out@) == k.take(j as int).filter(outside(d)),
        decreases kept.len() - j,
    {
        assert(k.take(j + 1) =~= k.take(j as int).push(k[j as int]));
        proof {
            k.take(j as int).lemma_filter_push(k[j as int], outside(d));
        }
        let ghost prior = local_views(out@);
        if !contains_text(&dups, kept[j].project_id.as_str()) {
            out.push(kept[j].clone());
            assert(local_views(out@) =~= prior.push(k[j as int]));
        }
        j = j + 1;
    }
    assert(k.take(kept.len() as int) =~= k);
    let ghost w0 = texts(warnings@);
    let mut m: usize = 0;
    while m < dups.len()
        invariant
            m <= dups.len(),
            d == texts(dups@),
            texts(warnings@) == w0 + d.take(m as int).map_values(|id: Text| duplicate_warning(id)),
        decreases dups.len() - m,
    {
        let w = concat3(
            "Duplicate device-local schedules for project ID '",
            dups[m].as_str(),
            "'; that schedule is disabled",
        );
        proof {
            reveal_strlit("Duplicate device-local schedules for project ID '");
            reveal_strlit("'; that schedule is disabled");
        }
        let ghost prev = texts(warnings@);
        warnings.push(w);
        assert(w@ == duplicate_warning(d[m as int]));
        assert(texts(warnings@) =~= prev.push(w@));
        assert(d.take(m + 1).map_values(|id: Text| duplicate_warning(id)) =~= d.take(
            m as int,
        ).map_values(|id: Text| duplicate_warning(id)).push(duplicate_warning(d[m as int])));
        m = m + 1;
        assert(texts(warnings@) =~= w0 + d.take(m as int).map_values(
            |id: Text| duplicate_warning(id),
        ));
    }
    assert(d.take(dups.len() as int) =~= d);
    (out, warnings)
}

/// Read the device-local layer for this device (`device_id`, labelled
/// `label`). Anything that cannot be trusted disables automation: a missing
/// file is a fresh device, an unparsable file, an unknown schema or another
/// device's file gives the fresh layer and a warning; the entries of a good
/// file are filtered one by one.
pub fn read_local_automation(read: LocalRead, device_id: &str, label: &str) -> (r: (
    LocalAutomationConfig,
    Vec<String>,
))
    ensures
        ({
            let fresh = default_local_view(device_id@, label@);
            match read {
                LocalRead::Missing => r.0@ == fresh && r.1@.len() == 0,
                LocalRead::Unparsable(e) => r.0@ == fresh && texts(r.1@) == seq![
                    unparsable_warning(e@),
                ],
                LocalRead::Parsed(w) => if text_view(w.schema) != Some(local_schema()) {
                    r.0@ == fresh && texts(r.1@) == seq![schema_warning(text_view(w.schema))]
                } else if text_view(w.device_id) != Some(device_id@) {
                    r.0@ == fresh && texts(r.1@) == seq![foreign_device_warning()]
                } else {
                    &&& r.0@ == (LocalView {
                        schema: local_schema(),
                        device_id: device_id@,
                        display_name: w.display_name@,
                        aliases: texts(w.aliases@),
                        queue_scheduled_pushes: w.queue_scheduled_pushes,
                        schedules: match w.schedules {
                            SchedulesField::Entries(es) => loaded_schedules(entry_views(es@)),
                            _ => Seq::empty(),
                        },
                    })
                    &&& texts(r.1@) == match w.schedules {
                        SchedulesField::Absent => Seq::empty(),
                        SchedulesField::NotArray => seq![not_array_warning()],
                        SchedulesField::Entries(es) => load_warnings(entry_views(es@)),
                    }
                },
            }
        }),
{
    let mut warnings: Vec<String> = Vec::new();
    match read {
        LocalRead::Missing => (default_local_automation(device_id, label), warnings),
        LocalRead::Unparsable(e) => {
            proof {
                reveal_strlit(
                    "Could not parse device-local automation config; schedules are disabled: ",
                );
            }
            warnings.push(
                concat(
                    "Could not parse device-local automation config; schedules are disabled: ",
                    e.as_str(),
                ),
            );
            assert(texts(warnings@) =~= seq![unparsable_warning(e@)]);
            (default_local_automation(device_id, label), warnings)
        },
        LocalRead::Parsed(w) => {
            proof {
                reveal_strlit("rcsync.local.v1");
            }
            let schema_ok = match &w.schema {
                Some(s) => same_text(s.as_str(), "rcsync.local.v1"),
                None => false,
            };
            if !schema_ok {
                let d = option_debug_text(&w.schema);
                proof {
                    reveal_strlit(
                        "Unsupported device-local automation schema; schedules are disabled: ",
                    );
                }
                warnings.push(
                    concat(
                        "Unsupported device-local automation schema; schedules are disabled: ",
                        d.as_str(),
                    ),
                );
                assert(texts(warnings@) =~= seq![schema_warning(text_view(w.schema))]);
                return (default_local_automation(device_id, label), warnings);
            }
            let device_ok = match &w.device_id {
                Some(s) => same_text(s.as_str(), device_id),
                None => false,
            };
            if !device_ok {
                proof {
                    reveal_strlit(
                        "Device-local automation belongs to a different device; schedules are disabled",
                    );
                }
                warnings.push(
                    String::from_str(
                        "Device-local automation belongs to a different device; schedules are disabled",
                    ),
                );
                assert(texts(warnings@) =~= seq![foreign_device_warning()]);
                return (default_local_automation(device_id, label), warnings);
            }
            let LocalAutomationWire {
                schema: _,
                device_id: _,
                display_name,
                aliases,
                queue_scheduled_pushes,
                schedules,
            } = w;
            let (kept, ws) = match &schedules {
                SchedulesField::Absent => (Vec::new(), Vec::new()),
                SchedulesField::NotArray => {
                    proof {
                        reveal_strlit(
                            "Device-local schedules must be an array; schedules are disabled",
                        );
                    }
                    let mut v: Vec<String> = Vec::new();
                    v.push(
                        String::from_str(
                            "Device-local schedules must be an array; schedules are disabled",
                        ),
                    );
                    assert(texts(v@) =~= seq![not_array_warning()]);
                    (Vec::new(), v)
                },
                SchedulesField::Entries(es) => filter_entries(es),
            };
            let local = LocalAutomationConfig {
                schema: String::from_str("rcsync.local.v1"),
                device_id: copy_text(device_id),
                display_name,
                aliases,
                queue_scheduled_pushes,
                schedules: kept,
            };
            proof {
                if !(schedules is Entries) {
                    assert(local@.schedules =~= Seq::<LocalScheduleView>::empty());
                }
                if schedules is Absent {
                    assert(texts(ws@) =~= Seq::<Text>::empty());
                }
            }
            (local, ws)
        },
    }
}

// ---------------------------------------------------------------------------
// Writing the layer.
/// Ordered by project ID: no later ID sorts before an earlier one.
pub open spec fn sorted_by_id(s: Seq<LocalScheduleView>) -> bool {
    forall|i: int, j: int| 0 <= i < j < s.len() ==> !text_lt(#[trigger] s[j].project_id, #[trigger] s[i].project_id)
}

proof fn lemma_id_order(a: Text, b: Text, c: Text)
    ensures
        !text_lt(a, a),
        !(text_lt(a, b) && text_lt(b, a)),
        a != b ==> text_lt(a, b) || text_lt(b, a),
        text_lt(a, b) && text_lt(b, c) ==> text_lt(a, c),
{
    lemma_text_lt_irreflexive(a);
    lemma_text_lt_total(a, b);
    if text_lt(a, b) && text_lt(b, c) {
        lemma_text_lt_transitive(a, b, c);
    }
}

/// The entries of one project.
pub open spec fn entry_for(id: Text) -> spec_fn(LocalScheduleView) -> bool {
    |s: LocalScheduleView| s.project_id == id
}

/// The schedules in project-ID order (a stable insertion sort: the entries
/// of one project keep their order).
pub fn sort_by_project_id(v: Vec<LocalSchedule>) -> (r: Vec<LocalSchedule>)
    ensures
        sorted_by_id(local_views(r@)),
        local_views(r@).to_multiset() == local_views(v@).to_multiset(),
        forall|id: Text| #[trigger] local_views(r@).filter(entry_for(id)) == local_views(v@).filter(entry_for(id)),
        r@.len() == v@.len(),
{
    let mut out: Vec<LocalSchedule> = Vec::new();
    let n = v.len();
    let ghost orig = local_views(v@);
    let mut i: usize = 0;
    while i < n
        invariant
            i <= n,
            n == orig.len(),
            n == v@.len(),
            orig == local_views(v@),
            sorted_by_id(local_views(out@)),
            local_views(out@).to_multiset() == orig.take(i as int).to_multiset(),
            forall|id: Text| #[trigger] local_views(out@).filter(entry_for(id)) == orig.take(i as int).filter(entry_for(id)),
            out@.len() == i,
        decreases n - i,
    {
        let x = v[i].clone();
        let mut p: usize = 0;
        while p < out.len() && !text_less(x.project_id.as_str(), out[p].project_id.as_str())
            invariant
                p <= out.len(),
                forall|j: int| 0 <= j < p ==> !text_lt(x@.project_id, #[trigger] local_views(out@)[j].project_id),
            decreases out.len() - p,
        {
            p = p + 1;
        }
        let ghost before = local_views(out@);
        out.insert(p, x);
        proof {
            let after = local_views(out@);
            let kx = x@;
            assert(after =~= before.insert(p as int, kx));
            assert forall|a: int, b: int| 0 <= a < b < after.len() implies !text_lt(
                #[trigger] after[b].project_id,
                #[trigger] after[a].project_id,
            ) by {
                if a < p && b == p {
                    lemma_id_order(before[a].project_id, kx.project_id, kx.project_id);
                    lemma_id_order(kx.project_id, before[a].project_id, kx.project_id);
                } else if a < p && b > p {
                    assert(after[b] == before[b - 1]);
                } else if a == p && b > p {
                    assert(after[b] == before[b - 1]);
                    if (p as int) < before.len() {
                        assert(text_lt(kx.project_id, before[p as int].project_id));
                        if b - 1 > p {
                            assert(!text_lt(before[b - 1].project_id, before[p as int].project_id));
                        }
                        lemma_id_order(kx.project_id, before[p as int].project_id, before[b - 1].project_id);
                        lemma_id_order(before[b - 1].project_id, kx.project_id, before[b - 1].project_id);
                        lemma_id_order(before[b - 1].project_id, kx.project_id, before[p as int].project_id);
                        lemma_id_order(before[p as int].project_id, before[b - 1].project_id, before[p as int].project_id);
                        if text_lt(before[b - 1].project_id, kx.project_id) {
                            lemma_id_order(before[b - 1].project_id, kx.project_id, before[p as int].project_id);
                        }
                    }
                } else if a > p {
                    assert(after[a] == before[a - 1]);
                    assert(after[b] == before[b - 1]);
                }
            }
            assert(after.remove(p as int) =~= before);
            assert(after.to_multiset() =~= before.to_multiset().insert(kx));
            assert(orig.take(i + 1) =~= orig.take(i as int).push(orig[i as int]));
            assert forall|id: Text| #[trigger] after.filter(entry_for(id)) == orig.take(i + 1).filter(entry_for(id)) by {
                if kx.project_id == id {
                    assert forall|j: int| p <= j < before.len() implies !entry_for(id)(#[trigger] before[j]) by {
                        assert(text_lt(kx.project_id, before[p as int].project_id));
                        lemma_id_order(kx.project_id, kx.project_id, kx.project_id);
                        if j > p {
                            assert(!text_lt(before[j].project_id, before[p as int].project_id));
                        }
                    }
                }
                crate::seqs::lemma_filter_insert(before, p as int, kx, entry_for(id));
                orig.take(i as int).lemma_filter_push(orig[i as int], entry_for(id));
            }
        }
        i = i + 1;
    }
    assert(orig.take(n as int) =~= orig);
    out
}

/// The aliases after a save under machine label `label`: a previous, different
/// display name joins the aliases (once), and the current label is never one.
pub open spec fn saved_aliases(aliases: Seq<Text>, display_name: Text, label: Text) -> Seq<Text> {
    let grown = if display_name.len() > 0 && display_name != label && !aliases.contains(display_name) {
        aliases.push(display_name)
    } else {
        aliases
    };
    grown.filter(|a: Text| a != label)
}

/// Make the layer ready to be written by the device `device_id`, labelled
/// `label`: the schema and device are stamped, the label becomes the display
/// name (a previous one is kept as an alias), and the schedules are ordered by
/// project ID.
pub fn prepare_local_for_save(local: &mut LocalAutomationConfig, device_id: &str, label: &str)
    ensures
        final(local)@.schema == local_schema(),
        final(local)@.device_id == device_id@,
        final(local)@.display_name == label@,
        final(local)@.aliases == saved_aliases(old(local)@.aliases, old(local)@.display_name, label@),
        final(local)@.queue_scheduled_pushes == old(local)@.queue_scheduled_pushes,
        sorted_by_id(final(local)@.schedules),
        final(local)@.schedules.to_multiset() == old(local)@.schedules.to_multiset(),
        forall|id: Text| #[trigger] final(local)@.schedules.filter(entry_for(id)) == old(local)@.schedules.filter(entry_for(id)),
        final(local)@.schedules.len() == old(local)@.schedules.len(),
{
    proof {
        reveal_strlit("rcsync.local.v1");
    }
    local.schema = String::from_str("rcsync.local.v1");
    local.device_id = copy_text(device_id);
    let ghost old_aliases = texts(local.aliases@);
    let ghost old_display = local.display_name@;
    let display = copy_text(local.display_name.as_str());
    if !display.as_str().is_empty() && !same_text(display.as_str(), label) && !contains_text(
        &local.aliases,
        display.as_str(),
    ) {
        local.aliases.push(display);
    }
    let ghost grown = texts(local.aliases@);
    assert(grown =~= (if old_display.len() > 0 && old_display != label@ && !old_aliases.contains(old_display) {
        old_aliases.push(old_display)
    } else {
        old_aliases
    }));
    let mut kept: Vec<String> = Vec::new();
    let mut i: usize = 0;
    while i < local.aliases.len()
        invariant
            i <= local.aliases.len(),
            grown == texts(local.aliases@),
            texts(kept@) == grown.take(i as int).filter(|a: Text| a != label@),
        decreases local.aliases.len() - i,
    {
        proof {
            assert(grown.take(i + 1) =~= grown.take(i as int).push(grown[i as int]));
            grown.take(i as int).lemma_filter_push(grown[i as int], |a: Text| a != label@);
        }
        let ghost prior = texts(kept@);
        if !same_text(local.aliases[i].as_str(), label) {
            kept.push(local.aliases[i].clone());
            assert(texts(kept@) =~= prior.push(grown[i as int]));
        }
        i = i + 1;
    }
    assert(grown.take(local.aliases.len() as int) =~= grown);
    assert(texts(kept@) == saved_aliases(old_aliases, old_display, label@));
    local.aliases = kept;
    local.display_name = copy_text(label);
    let mut schedules: Vec<LocalSchedule> = Vec::new();
    std::mem::swap(&mut schedules, &mut local.schedules);
    local.schedules = sort_by_project_id(schedules);
}

/// Two used entries for one project disable that project's automation: no
/// schedule of a duplicated project ID is loaded.
pub proof fn law_duplicate_local_entries_are_disabled(es: Seq<Result<LocalScheduleView, Text>>, a: int, b: int, k: int)
    requires
        0 <= a < b < kept_entries(es).len(),
        kept_entries(es)[a].project_id == kept_entries(es)[b].project_id,
        0 <= k < loaded_schedules(es).len(),
    ensures
        loaded_schedules(es)[k].project_id != kept_entries(es)[a].project_id,
{
    let kept = kept_entries(es);
    let ids = schedule_ids(kept);
    let id = kept[a].project_id;
    assert(ids[a] == id && ids[b] == id);
    crate::seqs::lemma_dup_list(ids, id);
    kept.lemma_filter_pred(outside(dup_list(ids)), k);
}

} // verus!
