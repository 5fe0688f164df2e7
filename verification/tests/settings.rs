use rcsync::automation::{
    default_local_automation, prepare_local_for_save, read_local_automation, LocalAutomationConfig,
    LocalAutomationWire, LocalRead, LocalSchedule, SchedulesField,
};
use rcsync::identity::{device_id_from, generated_device_id, project_id_for_fields, IdSource};
use rcsync::local_edits::{migrate_legacy_automation, set_local_project_schedule, set_local_queue_policy};
use rcsync::model::{AppConfig, Defaults, Project, RemoteConfig, RetiredTarget};
use rcsync::schedule::{IntervalUnit, Schedule};
use rcsync::settings::{
    check_user_config_writable, classify_stored_schedule, materialize_in, merge_config,
    merge_settings, prepare_user_config, read_user_config, reattach_target_in, retire_target_in,
    settings_current_match, RetiredField, UserConfig, UserRead,
};

const DEVICE: &str = "d_00000000000000aa";
const LABEL: &str = "test-machine";

/// The two stored files and the ID source of one process, in memory.
struct Store {
    user: UserConfig,
    local: LocalAutomationConfig,
    local_exists: bool,
    ids: IdSource,
}

impl Store {
    fn new() -> Self {
        Store {
            user: UserConfig::default(),
            local: default_local_automation(DEVICE, LABEL),
            local_exists: false,
            ids: IdSource::new(),
        }
    }

    fn load(&self) -> AppConfig {
        merge_config(&Defaults::default(), &self.user, &self.local, Vec::new(), false)
    }

    fn save(&mut self, cfg: &AppConfig) -> Result<(), String> {
        let user = prepare_user_config(cfg, &mut self.ids)?;
        check_user_config_writable(&user)?;
        self.user = user;
        Ok(())
    }

    fn save_local(&mut self, mut local: LocalAutomationConfig) {
        prepare_local_for_save(&mut local, DEVICE, LABEL);
        self.local = local;
        self.local_exists = true;
    }

    fn set_schedule(
        &mut self,
        name: &str,
        id: Option<&str>,
        schedule: Option<Schedule>,
        discovered: Option<String>,
    ) -> Result<String, String> {
        let mut cfg = self.load();
        let mut local = self.local.clone();
        let id = set_local_project_schedule(
            &mut cfg,
            &mut local,
            &mut self.ids,
            self.local_exists,
            &Vec::new(),
            name,
            id,
            schedule,
            discovered,
        )?;
        self.save(&cfg)?;
        self.save_local(local);
        Ok(id)
    }

    fn update_config(&mut self, submitted: &AppConfig) -> Result<(), String> {
        let before = self.load();
        let effective = merge_settings(&before, submitted, &mut self.ids)?;
        self.save(&effective)
    }

    fn migrate(&mut self) -> Result<usize, String> {
        let mut user = self.user.clone();
        let mut local = self.local.clone();
        let n = migrate_legacy_automation(&mut user, &mut local, self.local_exists, &Vec::new(), &Vec::new())?;
        self.save_local(local);
        check_user_config_writable(&user)?;
        self.user = user;
        Ok(n)
    }
}

fn record(id: &str, name: &str, local_path: &str, remote_path: &str) -> Project {
    Project {
        id: id.into(),
        name: name.into(),
        local_path: local_path.into(),
        remote_path: remote_path.into(),
        remote: "gdrive".into(),
        excludes: Vec::new(),
        schedule: None,
        schedule_error: None,
        legacy_schedule: None,
        legacy_schedule_raw: None,
    }
}

fn settings_project(id: &str, name: &str, local_path: &str) -> Project {
    record(id, name, local_path, &format!("proj/{name}"))
}

fn every_hours(every: u32) -> Schedule {
    Schedule::Interval { every, unit: IntervalUnit::Hours, origin_ms: 1 }
}

fn with_projects(projects: Vec<Project>) -> AppConfig {
    AppConfig { projects, ..AppConfig::default() }
}

/// A stored project whose shared `schedule` field held `parsed`, the way the
/// config reader hands it over.
fn stored_with_schedule(id: &str, name: &str, parsed: Result<Schedule, String>, raw: &str) -> Project {
    let mut p = record(id, name, &format!("~/projects/{name}"), &format!("proj/{name}"));
    let (legacy, error) = classify_stored_schedule(Some(parsed));
    p.schedule = legacy.clone();
    p.legacy_schedule = legacy;
    p.schedule_error = error;
    p.legacy_schedule_raw = Some(raw.to_string());
    p
}

fn cfg_with_excludes(extra: Vec<&str>, project: Vec<&str>) -> AppConfig {
    let mut p = record("", "p", "~/p", "");
    p.excludes = project.into_iter().map(str::to_string).collect();
    AppConfig {
        remote: "gdrive".into(),
        extra_excludes: extra.into_iter().map(str::to_string).collect(),
        projects: vec![p],
        ..AppConfig::default()
    }
}

const DIVERGENT: [&str; 4] = [" leading/**", "trailing/** ", "break/**\n", "cr/**\r"];

#[test]
fn saving_a_config_refuses_patterns_that_the_two_filter_forms_read_differently() {
    let mut store = Store::new();
    for bad in DIVERGENT {
        assert!(
            store.save(&cfg_with_excludes(vec![bad], vec![])).is_err(),
            "{:?} must be refused when saved, not repaired into agreement",
            bad
        );
        assert!(
            store.save(&cfg_with_excludes(vec![], vec![bad])).is_err(),
            "{:?} must be refused on a project too",
            bad
        );
    }
    store.save(&cfg_with_excludes(vec!["node_modules/**"], vec!["artifacts/**"])).unwrap();
    let loaded = store.load();
    assert_eq!(loaded.extra_excludes, vec!["node_modules/**"]);
    assert_eq!(loaded.projects[0].excludes, vec!["artifacts/**"]);
}

#[test]
fn invalid_schedule_does_not_discard_projects_or_remotes() {
    let mut store = Store::new();
    let bad = Schedule::Interval { every: 0, unit: IntervalUnit::Hours, origin_ms: 1 };
    store.user.projects = vec![stored_with_schedule(
        "",
        "p",
        Ok(bad),
        r#"{"kind":"interval","every":0,"unit":"hours","origin_ms":1}"#,
    )];
    store.user.projects[0].local_path = "~/p".into();
    store.user.projects[0].remote_path = "proj/p".into();

    let cfg = store.load();
    assert_eq!(cfg.remotes[0].name, "gdrive");
    assert_eq!(cfg.projects.len(), 1);
    assert_eq!(cfg.projects[0].name, "p");
    assert!(cfg.projects[0].schedule.is_none());
    assert_eq!(cfg.config_warnings.len(), 1);
    assert_eq!(store.migrate().unwrap(), 0);
    store.save(&cfg).unwrap();
    assert!(store.user.projects[0].legacy_schedule_raw.is_some());
}

#[test]
fn shared_legacy_automation_stays_disabled_until_explicit_migration() {
    let mut store = Store::new();
    store.user.queue_scheduled_pushes = Some(false);
    store.user.projects = vec![stored_with_schedule(
        "p_example",
        "example",
        Ok(every_hours(24)),
        r#"{"kind":"interval","every":24,"unit":"hours","origin_ms":1}"#,
    )];

    let before = store.load();
    assert!(before.projects[0].schedule.is_none());
    assert_eq!(before.legacy_schedule_count, 1);
    assert!(before.legacy_queue_policy);
    assert!(before
        .config_warnings
        .iter()
        .any(|warning| warning.contains("shared legacy schedule is disabled")));

    assert_eq!(store.migrate().unwrap(), 1);
    let after = store.load();
    assert!(matches!(after.projects[0].schedule, Some(Schedule::Interval { every: 24, .. })));
    assert_eq!(after.legacy_schedule_count, 0);
    assert!(!after.legacy_queue_policy);

    assert!(store.user.projects[0].legacy_schedule_raw.is_none());
    assert!(store.user.queue_scheduled_pushes.is_none());
    assert_eq!(store.local.schema, "rcsync.local.v1");
    assert_eq!(store.local.schedules.len(), 1);
}

#[test]
fn ordinary_save_preserves_legacy_queue_until_explicit_migration() {
    let mut store = Store::new();
    store.user.queue_scheduled_pushes = Some(false);

    let cfg = store.load();
    assert_eq!(cfg.legacy_queue_scheduled_pushes, Some(false));
    store.save(&cfg).unwrap();
    assert_eq!(store.user.queue_scheduled_pushes, Some(false));

    store.migrate().unwrap();
    assert!(store.user.queue_scheduled_pushes.is_none());
    assert!(!store.local.queue_scheduled_pushes);
}

#[test]
fn duplicate_shared_project_ids_disable_local_automation() {
    let mut store = Store::new();
    store.user.projects = vec![
        record("p_duplicate", "first", "~/projects/first", "proj/first"),
        record("p_duplicate", "second", "~/projects/second", "proj/second"),
    ];
    store.local.schedules = vec![LocalSchedule {
        project_id: "p_duplicate".into(),
        last_seen_name: "first".into(),
        schedule: every_hours(24),
    }];

    let cfg = store.load();
    assert!(cfg.projects.iter().all(|project| project.schedule.is_none()));
    assert!(cfg
        .config_warnings
        .iter()
        .any(|warning| warning.contains("Duplicate shared project ID")));
}

#[test]
fn settings_matching_prefers_exact_id_over_an_earlier_same_name() {
    let current = vec![
        settings_project("p_first", "same", "~/projects/first"),
        settings_project("p_second", "same", "~/projects/second"),
    ];
    let submitted = current[1].clone();
    let matched = settings_current_match(&current, &submitted, &Vec::new()).unwrap().unwrap();
    assert_eq!(matched.id, "p_second");
}

#[test]
fn settings_matching_stale_opaque_id_does_not_fall_back_by_name() {
    let current = vec![settings_project("p_current", "same", "~/projects/same")];
    let submitted = settings_project("p_stale", "same", "~/projects/same");
    assert!(settings_current_match(&current, &submitted, &Vec::new()).unwrap().is_none());
}

#[test]
fn settings_matching_accepts_a_unique_legacy_bootstrap_record() {
    let mut current = settings_project("", "legacy", "~/projects/legacy");
    current.id = project_id_for_fields(&current.name, &current.local_path, &current.remote_path, &current.remote);
    let submitted = current.clone();
    let current_records = vec![current];
    let matched = settings_current_match(&current_records, &submitted, &Vec::new()).unwrap().unwrap();
    assert_eq!(matched.name, "legacy");
}

#[test]
fn settings_matching_blank_id_never_matches_a_current_record() {
    let current = vec![settings_project(
        &project_id_for_fields("same", "~/projects/same", "proj/same", "gdrive"),
        "same",
        "~/projects/same",
    )];
    let mut submitted = current[0].clone();
    submitted.id.clear();
    assert!(settings_current_match(&current, &submitted, &Vec::new()).unwrap().is_none());
}

#[test]
fn a_duplicated_current_id_is_an_error_and_a_claimed_id_matches_once() {
    let current = vec![
        settings_project("p_dup", "a", "~/projects/a"),
        settings_project("p_dup", "b", "~/projects/b"),
    ];
    let err = settings_current_match(&current, &current[0], &Vec::new()).unwrap_err();
    assert_eq!(err, "Settings payload project ID 'p_dup' is duplicated");
    let single = vec![settings_project("p_one", "a", "~/projects/a")];
    let retained = vec![String::from("p_one")];
    assert!(settings_current_match(&single, &single[0], &retained).unwrap().is_none());
}

#[test]
fn load_config_bootstraps_legacy_blank_disk_ids_before_schedules() {
    let mut store = Store::new();
    let name = "legacy-disk";
    let local_path = "~/projects/legacy-disk";
    let remote_path = "proj/legacy-disk";
    let legacy_id = project_id_for_fields(name, local_path, remote_path, "gdrive");
    store.user.projects = vec![record("", name, local_path, remote_path)];
    store.local.schedules = vec![LocalSchedule {
        project_id: legacy_id.clone(),
        last_seen_name: name.into(),
        schedule: every_hours(24),
    }];

    let cfg = store.load();
    assert_eq!(cfg.projects[0].id, legacy_id);
    assert!(matches!(cfg.projects[0].schedule, Some(Schedule::Interval { .. })));
}

#[test]
fn recreating_a_deleted_project_does_not_reactivate_its_orphan_schedule() {
    let mut store = Store::new();
    let old_id = "p_deleted";
    store
        .save(&with_projects(vec![record(old_id, "same-name", "~/projects/same-name", "proj/same-name")]))
        .unwrap();
    store.set_schedule("same-name", Some(old_id), Some(every_hours(24)), None).unwrap();

    store
        .save(&with_projects(vec![record("", "same-name", "~/projects/same-name", "proj/same-name")]))
        .unwrap();
    let cfg = store.load();
    assert_ne!(cfg.projects[0].id, old_id);
    assert!(cfg.projects[0].schedule.is_none());
}

#[test]
fn local_automation_merges_by_project_id_and_writes_outside_shared_config() {
    let mut store = Store::new();
    store.user.projects = vec![record("p_alpha", "alpha", "~/projects/alpha", "proj/alpha")];

    let schedule = every_hours(48);
    assert_eq!(store.set_schedule("alpha", Some("p_alpha"), Some(every_hours(48)), None).unwrap(), "p_alpha");
    let cfg = store.load();
    assert_eq!(cfg.projects[0].schedule, Some(schedule));

    assert!(store.user.projects[0].schedule.is_none());
    assert!(store.user.projects[0].legacy_schedule_raw.is_none());
    assert_eq!(store.local.schedules[0].project_id, "p_alpha");
}

#[test]
fn malformed_local_automation_fails_closed_without_hiding_shared_projects() {
    let mut store = Store::new();
    store.user.projects = vec![record("p_beta", "beta", "~/projects/beta", "proj/beta")];
    let (local, warnings) = read_local_automation(
        LocalRead::Unparsable("key must be a string at line 1 column 2".into()),
        DEVICE,
        LABEL,
    );
    store.local = local;

    let cfg = merge_config(&Defaults::default(), &store.user, &store.local, warnings, false);
    assert_eq!(cfg.projects.len(), 1);
    assert!(cfg.projects[0].schedule.is_none());
    assert!(cfg.config_warnings.iter().any(|warning| warning.contains("schedules are disabled")));
}

#[test]
fn a_stale_project_id_cannot_fall_back_to_a_name_match() {
    let mut store = Store::new();
    store.user.projects = vec![record("p_real", "same-name", "~/same-name", "proj/same-name")];

    let result = store.set_schedule("same-name", Some("p_stale"), Some(every_hours(24)), None);
    assert!(result.is_err());
    assert!(store.load().projects[0].schedule.is_none());
}

#[test]
fn an_exact_discovered_project_id_can_materialize_a_local_schedule() {
    let mut store = Store::new();
    store.user.scan_dirs = vec!["/tmp/scan-root".into()];
    let discovered_path = String::from("/tmp/scan-root/discovered");
    let discovered_id = project_id_for_fields("discovered", &discovered_path, "", "gdrive");
    store
        .set_schedule("discovered", Some(&discovered_id), Some(every_hours(24)), Some(discovered_path))
        .unwrap();
    let cfg = store.load();
    assert_eq!(cfg.projects.len(), 1);
    assert_ne!(cfg.projects[0].id, discovered_id);
    assert!(cfg.projects[0].schedule.is_some());
}

#[test]
fn device_id_survives_a_machine_label_change() {
    // The stored identity wins over anything derived from a label.
    let stored = generated_device_id("Workstation:1:42");
    let first = device_id_from(None, Some(&stored)).unwrap();
    let second = device_id_from(None, Some(&format!("  {stored}\n"))).unwrap();
    assert_eq!(first, second);
    assert!(first.starts_with("d_"));
    assert_eq!(first.len(), 18);
    assert_eq!(device_id_from(Some("  manual  "), Some(&stored)).unwrap(), "manual");
    assert!(device_id_from(Some("   "), None).is_none());
}

#[test]
fn retired_target_round_trips_and_reattach_creates_a_fresh_generation() {
    let mut store = Store::new();
    let first_record = record("p_original", "example", "~/projects/example", "");
    store.save(&with_projects(vec![first_record.clone()])).unwrap();

    let mut cfg = store.load();
    retire_target_in(&mut cfg, &first_record, 1, DEVICE).unwrap();
    store.save(&cfg).unwrap();
    let retired = store.load();
    assert!(retired.projects.is_empty());
    assert_eq!(retired.retired_targets.len(), 1);
    assert_eq!(retired.retired_targets[0].remote, "gdrive");
    assert_eq!(retired.retired_targets[0].remote_path, "proj/example");

    let discovered = Project {
        id: project_id_for_fields("example", "~/projects/example", "", "gdrive"),
        ..first_record.clone()
    };
    assert!(retired.retired_target_for(&discovered).is_some());
    assert!(retired.ensure_remote_target_writable(&discovered).is_err());
    let different_target = Project { remote_path: "archive/example".into(), ..discovered.clone() };
    assert!(retired.retired_target_for(&different_target).is_none());

    let mut cfg = store.load();
    let new_id = reattach_target_in(&mut cfg, &discovered, &mut store.ids).unwrap();
    store.save(&cfg).unwrap();
    let recreated = store.load();
    assert_eq!(recreated.projects.len(), 1);
    assert_eq!(recreated.projects[0].id, new_id);
    assert_ne!(new_id, first_record.id);
    assert!(recreated.projects[0].schedule.is_none());
    assert!(recreated.retired_targets.is_empty());
}

#[test]
fn malformed_retired_target_data_fails_closed_for_remote_writes() {
    let mut warnings = Vec::new();
    let user = read_user_config(
        UserRead::Parsed(UserConfig::default(), RetiredField::Unparsable("invalid type: map, expected a sequence".into())),
        &mut warnings,
    );
    let local = default_local_automation(DEVICE, LABEL);
    let cfg = merge_config(&Defaults::default(), &user, &local, warnings, false);
    assert!(cfg.retired_targets_unreadable);
    let project = record("p_example", "example", "~/projects/example", "");
    assert!(cfg.ensure_remote_target_writable(&project).is_err());
}

#[test]
fn ordinary_settings_save_preserves_retired_targets() {
    let mut store = Store::new();
    let retired = RetiredTarget {
        remote: "gdrive".into(),
        remote_path: "proj/example".into(),
        name_at_retirement: "example".into(),
        project_id_at_retirement: "p_old".into(),
        retired_at_ms: 1,
        retired_by_device: "device-a".into(),
    };
    store.save(&AppConfig { retired_targets: vec![retired.clone()], ..AppConfig::default() }).unwrap();

    store.update_config(&AppConfig::default()).unwrap();
    assert_eq!(store.load().retired_targets, vec![retired]);
}

#[test]
fn a_stale_settings_save_preserves_a_project_card_schedule() {
    let mut store = Store::new();
    let mut p = record("", "p", "~/keep", "remote/keep");
    p.excludes = vec!["keep/**".into()];
    let initial = with_projects(vec![p]);
    store.save(&initial).unwrap();
    let current_id = store.load().projects[0].id.clone();
    store.set_schedule("p", Some(&current_id), Some(every_hours(6)), None).unwrap();

    let mut stale = initial.clone();
    stale.projects[0].id = current_id;
    stale.rclone_path = "rclone-updated".into();
    stale.projects[0].local_path = "~/stale".into();
    stale.projects[0].remote_path = "remote/stale".into();
    stale.projects[0].excludes = vec!["stale/**".into()];
    stale.projects[0].schedule = None;
    store.update_config(&stale).unwrap();

    let saved = store.load();
    assert_eq!(saved.rclone_path, "rclone-updated");
    assert_eq!(saved.projects[0].local_path, "~/keep");
    assert_eq!(saved.projects[0].remote_path, "remote/keep");
    assert_eq!(saved.projects[0].excludes, vec!["keep/**"]);
    assert!(matches!(saved.projects[0].schedule, Some(Schedule::Interval { .. })));
}

#[test]
fn settings_payload_recreation_cannot_reactivate_orphan_schedule() {
    let mut store = Store::new();
    let payload = with_projects(vec![record("", "recreated", "~/projects/recreated", "proj/recreated")]);
    store.update_config(&payload).unwrap();
    let first = store.load().projects[0].clone();
    let old_id = first.id.clone();
    store.set_schedule(&first.name, Some(&old_id), Some(every_hours(24)), None).unwrap();

    let mut cleared = store.load();
    cleared.projects.clear();
    store.save(&cleared).unwrap();
    store.update_config(&payload).unwrap();

    let recreated = store.load().projects[0].clone();
    assert_ne!(recreated.id, old_id);
    assert!(recreated.schedule.is_none());
}

#[test]
fn settings_blank_bootstrap_does_not_match_different_legacy_record() {
    let mut store = Store::new();
    let old_local = "~/projects/legacy-same";
    let old_remote_path = "proj/legacy-same";
    let old_id = project_id_for_fields("same-name", old_local, old_remote_path, "gdrive");
    store.save(&with_projects(vec![record(&old_id, "same-name", old_local, old_remote_path)])).unwrap();
    store.set_schedule("same-name", Some(&old_id), Some(every_hours(24)), None).unwrap();

    let replacement = with_projects(vec![record("", "same-name", "~/projects/replacement", "proj/replacement")]);
    store.update_config(&replacement).unwrap();

    let saved = store.load();
    assert_eq!(saved.projects.len(), 1);
    assert_eq!(saved.projects[0].local_path, "~/projects/replacement");
    assert_eq!(saved.projects[0].remote_path, "proj/replacement");
    assert_ne!(saved.projects[0].id, old_id);
    assert!(saved.projects[0].schedule.is_none());
}

#[test]
fn settings_identical_blank_replacement_cannot_reactivate_schedule() {
    let mut store = Store::new();
    let local_path = "~/projects/identical";
    let remote_path = "proj/identical";
    let old_id = project_id_for_fields("identical", local_path, remote_path, "gdrive");
    store.save(&with_projects(vec![record(&old_id, "identical", local_path, remote_path)])).unwrap();
    store.set_schedule("identical", Some(&old_id), Some(every_hours(24)), None).unwrap();

    let replacement = with_projects(vec![record("", "identical", local_path, remote_path)]);
    store.update_config(&replacement).unwrap();

    let saved = store.load();
    assert_eq!(saved.projects.len(), 1);
    assert_eq!(saved.projects[0].name, "identical");
    assert_eq!(saved.projects[0].local_path, local_path);
    assert_ne!(saved.projects[0].id, old_id);
    assert!(saved.projects[0].schedule.is_none());
}

#[test]
fn settings_duplicate_name_delete_keeps_the_exact_id_and_deactivates_removed_schedule() {
    let mut store = Store::new();
    store
        .save(&with_projects(vec![
            record("p_first", "same", "~/projects/first", "proj/same"),
            record("p_second", "same", "~/projects/second", "proj/same"),
        ]))
        .unwrap();
    store.set_schedule("same", Some("p_first"), Some(every_hours(24)), None).unwrap();

    let mut edited = store.load();
    edited.projects = vec![edited.projects.iter().find(|project| project.id == "p_second").cloned().unwrap()];
    store.update_config(&edited).unwrap();

    let saved = store.load();
    assert_eq!(saved.projects.len(), 1);
    assert_eq!(saved.projects[0].id, "p_second");
    assert!(saved.projects[0].schedule.is_none());
}

#[test]
fn settings_stale_opaque_id_cannot_reactivate_a_same_name_schedule() {
    let mut store = Store::new();
    store.save(&with_projects(vec![record("p_current", "same", "~/projects/same", "proj/same")])).unwrap();
    store.set_schedule("same", Some("p_current"), Some(every_hours(24)), None).unwrap();

    let incoming = with_projects(vec![record("p_stale", "same", "~/projects/same", "proj/same")]);
    store.update_config(&incoming).unwrap();

    let saved = store.load();
    assert_ne!(saved.projects[0].id, "p_current");
    assert!(saved.projects[0].schedule.is_none());
}

#[test]
fn recreated_materialized_project_does_not_reactivate_orphan_schedule() {
    let mut store = Store::new();
    store.user.scan_dirs = vec!["/tmp/scan".into()];
    let path = String::from("/tmp/scan/discovered");
    let selector = project_id_for_fields("discovered", &path, "", "gdrive");
    let old_id = store.set_schedule("discovered", Some(&selector), Some(every_hours(24)), Some(path.clone())).unwrap();
    let mut cleared = store.load();
    cleared.projects.clear();
    store.save(&cleared).unwrap();

    let discovered = Project { id: selector, ..record("", "discovered", &path, "") };
    let mut cfg = store.load();
    materialize_in(&mut cfg, &discovered, &mut store.ids).unwrap();
    store.save(&cfg).unwrap();
    let cfg = store.load();
    assert_ne!(cfg.projects[0].id, old_id);
    assert!(cfg.projects[0].schedule.is_none());
}

#[test]
fn materializing_keeps_an_existing_record_and_refuses_a_same_name_stranger() {
    let mut ids = IdSource::new();
    let existing = record("p_here", "here", "~/projects/here", "");
    let mut cfg = with_projects(vec![existing.clone()]);
    assert_eq!(materialize_in(&mut cfg, &existing, &mut ids).unwrap(), existing);
    assert_eq!(cfg.projects.len(), 1);
    let stranger = record("p_other", "here", "~/elsewhere/here", "");
    assert_eq!(
        materialize_in(&mut cfg, &stranger, &mut ids).unwrap_err(),
        "Project 'here' already exists with a different identity"
    );
}

#[test]
fn the_local_layer_is_rejected_for_another_device_or_schema() {
    let wire = |schema: Option<&str>, device: Option<&str>| LocalAutomationWire {
        schema: schema.map(str::to_string),
        device_id: device.map(str::to_string),
        display_name: "old-label".into(),
        aliases: Vec::new(),
        queue_scheduled_pushes: false,
        schedules: SchedulesField::Absent,
    };
    let (local, warnings) = read_local_automation(LocalRead::Parsed(wire(Some("other"), Some(DEVICE))), DEVICE, LABEL);
    assert!(local.schedules.is_empty());
    assert!(local.queue_scheduled_pushes);
    assert_eq!(
        warnings,
        vec![String::from("Unsupported device-local automation schema; schedules are disabled: Some(\"other\")")]
    );
    let (_, warnings) = read_local_automation(LocalRead::Parsed(wire(Some("rcsync.local.v1"), Some("d_x"))), DEVICE, LABEL);
    assert_eq!(warnings, vec![String::from("Device-local automation belongs to a different device; schedules are disabled")]);
    let (local, warnings) = read_local_automation(LocalRead::Parsed(wire(Some("rcsync.local.v1"), Some(DEVICE))), DEVICE, LABEL);
    assert!(warnings.is_empty());
    assert!(!local.queue_scheduled_pushes);
    assert_eq!(local.display_name, "old-label");
}

#[test]
fn local_entries_are_filtered_one_by_one_and_duplicates_disable_their_project() {
    let entry = |id: &str, name: &str, schedule: Schedule| {
        Ok(LocalSchedule { project_id: id.into(), last_seen_name: name.into(), schedule })
    };
    let entries = vec![
        entry("p_a", "a", every_hours(24)),
        entry("  ", "blank", every_hours(24)),
        entry("p_b", "b", every_hours(0)),
        Err(String::from("missing field `schedule`")),
        entry("p_c", "c", every_hours(12)),
        entry("p_a", "a-again", every_hours(6)),
    ];
    let wire = LocalAutomationWire {
        schema: Some("rcsync.local.v1".into()),
        device_id: Some(DEVICE.into()),
        display_name: LABEL.into(),
        aliases: Vec::new(),
        queue_scheduled_pushes: true,
        schedules: SchedulesField::Entries(entries),
    };
    let (local, warnings) = read_local_automation(LocalRead::Parsed(wire), DEVICE, LABEL);
    assert_eq!(local.schedules.len(), 1);
    assert_eq!(local.schedules[0].project_id, "p_c");
    assert_eq!(
        warnings,
        vec![
            String::from("Device-local schedule has no project ID; it was ignored"),
            String::from("Device-local schedule for 'b' is invalid; it was ignored"),
            String::from("Invalid device-local schedule; it was ignored: missing field `schedule`"),
            String::from("Duplicate device-local schedules for project ID 'p_a'; that schedule is disabled"),
        ]
    );
}

#[test]
fn saving_the_local_layer_keeps_the_old_label_as_an_alias_and_orders_schedules() {
    let mut local = default_local_automation(DEVICE, "old-label");
    local.aliases = vec![String::from(LABEL)];
    local.schedules = vec![
        LocalSchedule { project_id: "p_z".into(), last_seen_name: "z".into(), schedule: every_hours(1) },
        LocalSchedule { project_id: "p_a".into(), last_seen_name: "a".into(), schedule: every_hours(2) },
    ];
    prepare_local_for_save(&mut local, DEVICE, LABEL);
    assert_eq!(local.display_name, LABEL);
    assert_eq!(local.aliases, vec![String::from("old-label")]);
    assert_eq!(local.schedules[0].project_id, "p_a");
    assert_eq!(local.schedules[1].project_id, "p_z");
}

#[test]
fn an_unrepaired_local_file_cannot_be_edited() {
    let mut local = default_local_automation(DEVICE, LABEL);
    let warnings = vec![String::from("first"), String::from("second")];
    let err = set_local_queue_policy(&mut local, true, &warnings, false).unwrap_err();
    assert_eq!(err, "Device-local automation config needs repair before it can be edited: first; second");
    assert!(local.queue_scheduled_pushes);
    set_local_queue_policy(&mut local, false, &warnings, false).unwrap();
    assert!(!local.queue_scheduled_pushes);
}

#[test]
fn an_unreadable_user_config_disables_remote_writes_and_saves() {
    let mut warnings = Vec::new();
    let user = read_user_config(UserRead::Unparsable("expected value at line 1 column 1".into()), &mut warnings);
    assert!(user.retired_targets_unreadable);
    assert_eq!(
        warnings,
        vec![String::from("Could not parse rcsync config; remote writes are disabled: expected value at line 1 column 1")]
    );
    assert!(check_user_config_writable(&user).is_err());
    let local = default_local_automation(DEVICE, LABEL);
    let cfg = merge_config(&Defaults::default(), &user, &local, warnings, false);
    let mut ids = IdSource::new();
    assert_eq!(
        prepare_user_config(&cfg, &mut ids).unwrap_err(),
        "Shared retired-target safety records are unreadable; remote writes are disabled until the config is repaired"
    );
}

#[test]
fn shipped_excludes_merge_with_user_extras_once() {
    let defaults = Defaults {
        excludes: vec!["node_modules/**".into(), ".git/**".into()],
        scan_dirs: vec![],
        default_pull_dir: String::new(),
    };
    let mut user = UserConfig::default();
    user.extra_excludes = vec!["dist/**".into(), ".git/**".into(), "dist/**".into()];
    let local = default_local_automation(DEVICE, LABEL);
    let cfg = merge_config(&defaults, &user, &local, Vec::new(), false);
    assert_eq!(cfg.excludes, vec!["node_modules/**", ".git/**", "dist/**"]);
    assert_eq!(cfg.scan_dirs, vec!["~/projects"]);
    assert_eq!(cfg.default_pull_dir, "~/projects");
}

#[test]
fn a_schedule_that_does_not_parse_becomes_an_error_beside_the_project() {
    let (schedule, error) = classify_stored_schedule(Some(Err(String::from("unknown variant `monthly`"))));
    assert!(schedule.is_none());
    assert_eq!(error.unwrap(), "Invalid project schedule: unknown variant `monthly`");
    let (schedule, error) = classify_stored_schedule(None);
    assert!(schedule.is_none() && error.is_none());
}

#[test]
fn retirement_blocks_the_target_not_the_name() {
    let mut cfg = with_projects(vec![
        record("p_a", "site", "~/a", "proj/site"),
        record("p_b", "site", "~/b", "proj/other"),
    ]);
    let a = cfg.projects[0].clone();
    let b = cfg.projects[1].clone();
    retire_target_in(&mut cfg, &a, 1, DEVICE).unwrap();
    assert!(cfg.ensure_remote_target_writable(&a).is_err());
    assert!(cfg.ensure_remote_target_writable(&b).is_ok());
}

#[test]
fn default_excludes_are_always_applied_before_user_extras() {
    let defaults = Defaults {
        excludes: vec!["a/**".into(), "b/**".into()],
        scan_dirs: Vec::new(),
        default_pull_dir: String::new(),
    };
    let mut user = UserConfig::default();
    user.extra_excludes = vec!["b/**".into(), "c/**".into()];
    let local = default_local_automation(DEVICE, LABEL);
    let cfg = merge_config(&defaults, &user, &local, Vec::new(), false);
    assert_eq!(cfg.excludes, vec!["a/**", "b/**", "c/**"]);
    assert_eq!(cfg.default_excludes, vec!["a/**", "b/**"]);
}

#[test]
fn a_saved_local_layer_reads_back_as_written() {
    let mut local = default_local_automation(DEVICE, LABEL);
    local.schedules = vec![
        LocalSchedule {
            project_id: "p_b".into(),
            last_seen_name: "b".into(),
            schedule: every_hours(2),
        },
        LocalSchedule {
            project_id: "p_a".into(),
            last_seen_name: "a".into(),
            schedule: every_hours(24),
        },
    ];
    prepare_local_for_save(&mut local, DEVICE, LABEL);
    assert_eq!(local.schedules[0].project_id, "p_a");
    let wire = LocalAutomationWire {
        schema: Some(local.schema.clone()),
        device_id: Some(local.device_id.clone()),
        display_name: local.display_name.clone(),
        aliases: local.aliases.clone(),
        queue_scheduled_pushes: local.queue_scheduled_pushes,
        schedules: SchedulesField::Entries(local.schedules.iter().cloned().map(Ok).collect()),
    };
    let (read, warnings) = read_local_automation(LocalRead::Parsed(wire), DEVICE, LABEL);
    assert!(warnings.is_empty());
    assert_eq!(read, local);
}

fn row(id: &str, name: &str) -> Project {
    Project {
        id: id.into(),
        name: name.into(),
        local_path: format!("~/projects/{name}"),
        remote_path: format!("proj/{name}"),
        remote: "gdrive".into(),
        excludes: Vec::new(),
        schedule: None,
        schedule_error: None,
        legacy_schedule: None,
        legacy_schedule_raw: None,
    }
}

#[test]
fn saving_settings_with_new_rows_gives_each_a_distinct_fresh_id() {
    let before = AppConfig {
        projects: vec![row("p_kept", "kept")],
        ..AppConfig::default()
    };
    let submitted = AppConfig {
        projects: vec![row("p_kept", "renamed"), row("", "first"), row("", "second")],
        ..AppConfig::default()
    };
    let mut ids = IdSource::new();
    let merged = merge_settings(&before, &submitted, &mut ids).unwrap();
    assert_eq!(merged.projects.len(), 3);
    assert_eq!(merged.projects[0].id, "p_kept");
    assert_eq!(merged.projects[0].name, "renamed");
    for p in &merged.projects[1..] {
        assert!(p.id.starts_with("p_") && p.id.len() == 34);
        assert!(p.schedule.is_none());
    }
    assert_ne!(merged.projects[1].id, merged.projects[2].id);
    assert_eq!(ids.serial, 2);
}
