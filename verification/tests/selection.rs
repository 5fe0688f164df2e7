use rcsync::identity::IdSource;
use rcsync::model::{AppConfig, Project, RemoteConfig, RetiredTarget};
use rcsync::schedule::{IntervalUnit, Schedule};
use rcsync::selection::{
    browse_pull_staged_record, changed_schedule_ids, check_browse_pull_owner, publish_browse_pull, clean_excludes, discovered_project_record, ensure_remote_configured,
    expand_tilde_with, find_local_path, find_project, find_scanned_local_path, find_project_by_id, project_for_operation,
    resolve_browse_pull_project, resolve_project_for_push, set_excludes_in, set_remote_in,
    stamp_schedule_origin, staging_path, switch_remote_in,
};
use rcsync::settings::materialize_in;
use rcsync::status::project_status_rows;

fn project(id: &str, name: &str, local_path: &str, remote_path: &str, remote: &str) -> Project {
    Project {
        id: id.into(),
        name: name.into(),
        local_path: local_path.into(),
        remote_path: remote_path.into(),
        remote: remote.into(),
        excludes: Vec::new(),
        schedule: None,
        schedule_error: None,
        legacy_schedule: None,
        legacy_schedule_raw: None,
    }
}

fn remote(name: &str, base_path: &str) -> RemoteConfig {
    RemoteConfig {
        name: name.into(),
        base_path: base_path.into(),
    }
}

/// The editors' flow: resolve the selected project (by ID when given),
/// materialize a scan-discovered one, then write the field.
fn edit_target(
    cfg: &mut AppConfig,
    ids: &mut IdSource,
    name: &str,
    id: Option<&str>,
) -> Result<Project, String> {
    let selected = project_for_operation(cfg, name, id, None)?;
    materialize_in(cfg, &selected, ids)
}

fn set_project_excludes(
    cfg: &mut AppConfig,
    ids: &mut IdSource,
    name: &str,
    id: Option<&str>,
    excludes: Vec<String>,
) -> Result<(), String> {
    let cleaned = clean_excludes(&excludes)?;
    let target = edit_target(cfg, ids, name, id)?;
    set_excludes_in(cfg, &target.id, cleaned)
}

fn set_project_remote(
    cfg: &mut AppConfig,
    ids: &mut IdSource,
    name: &str,
    id: Option<&str>,
    remote_name: &str,
    remote_path: &str,
) -> Result<(), String> {
    ensure_remote_configured(cfg, remote_name)?;
    let target = edit_target(cfg, ids, name, id)?;
    set_remote_in(cfg, &target.id, remote_name, remote_path)
}

#[test]
fn the_ignore_editor_command_refuses_a_pattern_it_would_otherwise_repair() {
    let mut ids = IdSource::new();
    let mut cfg = AppConfig {
        projects: vec![project("", "p", "~/p", "", "gdrive")],
        ..AppConfig::default()
    };

    let bad_patterns = [" leading/**", "trailing/** ", "break/**\n", "cr/**\r"];
    for bad in bad_patterns {
        let err = set_project_excludes(&mut cfg, &mut ids, "p", None, vec![bad.to_string()])
            .expect_err(&format!("{:?} must be rejected", bad));
        assert!(
            err.contains("whitespace") || err.contains("line break"),
            "{:?} was not rejected as a bad pattern: {}",
            bad,
            err
        );
    }

    set_project_excludes(&mut cfg, &mut ids, "p", None, vec!["   ".into()]).unwrap();
    assert!(cfg.projects[0].excludes.is_empty());
    set_project_excludes(&mut cfg, &mut ids, "p", None, vec!["artifacts/**".into()]).unwrap();
    assert_eq!(cfg.projects[0].excludes, vec!["artifacts/**"]);
}

#[test]
fn duplicate_name_project_editors_use_the_selected_project_id() {
    let mut ids = IdSource::new();
    let mut first = project("p_first", "same-name", "~/projects/p_first", "proj/p_first", "gdrive");
    first.excludes = vec!["first/**".into()];
    let second = project("p_second", "same-name", "~/projects/p_second", "proj/p_second", "gdrive");
    let mut cfg = AppConfig {
        remotes: vec![remote("gdrive", "proj"), remote("backup", "backup")],
        projects: vec![first, second],
        ..AppConfig::default()
    };

    assert_eq!(
        project_for_operation(&cfg, "same-name", Some("p_second"), None)
            .unwrap()
            .excludes,
        Vec::<String>::new()
    );
    set_project_excludes(
        &mut cfg,
        &mut ids,
        "same-name",
        Some("p_second"),
        vec!["second/**".into()],
    )
    .unwrap();
    set_project_remote(
        &mut cfg,
        &mut ids,
        "same-name",
        Some("p_second"),
        "backup",
        "archive/second",
    )
    .unwrap();

    let first = cfg.projects.iter().find(|p| p.id == "p_first").unwrap();
    let second = cfg.projects.iter().find(|p| p.id == "p_second").unwrap();
    assert_eq!(first.excludes, vec!["first/**"]);
    assert_eq!(first.remote, "gdrive");
    assert_eq!(second.excludes, vec!["second/**"]);
    assert_eq!(second.remote, "backup");
    assert_eq!(second.remote_path, "archive/second");

    // Without an ID, a duplicated name is refused rather than guessed.
    assert!(project_for_operation(&cfg, "same-name", None, None)
        .unwrap_err()
        .contains("ambiguous"));
}

#[test]
fn an_unknown_remote_is_refused_before_anything_is_written() {
    let mut ids = IdSource::new();
    let mut cfg = AppConfig {
        projects: vec![project("p1", "p", "~/p", "", "gdrive")],
        ..AppConfig::default()
    };
    let before = cfg.clone();
    assert_eq!(
        set_project_remote(&mut cfg, &mut ids, "p", Some("p1"), "nowhere", "x").unwrap_err(),
        "Remote 'nowhere' is not configured"
    );
    assert_eq!(cfg, before);
}

#[test]
fn switching_the_active_remote_requires_a_configured_one() {
    let mut cfg = AppConfig {
        remotes: vec![remote("gdrive", "proj"), remote("backup", "backup")],
        ..AppConfig::default()
    };
    switch_remote_in(&mut cfg, "backup").unwrap();
    assert_eq!(cfg.remote, "backup");
    assert_eq!(
        switch_remote_in(&mut cfg, "nowhere").unwrap_err(),
        "Remote 'nowhere' not found in config"
    );
    assert_eq!(cfg.remote, "backup");
}

fn two_same_named() -> AppConfig {
    let mut gdrive = project("p_gdrive", "same-name", "~/projects/gdrive-same", "proj/same-name", "gdrive");
    gdrive.excludes = vec!["gdrive-only/**".into()];
    let mut backup = project("p_backup", "same-name", "~/projects/backup-same", "backup/same-name", "backup");
    backup.excludes = vec!["backup-only/**".into()];
    AppConfig {
        remotes: vec![remote("gdrive", "proj"), remote("backup", "backup")],
        projects: vec![gdrive, backup],
        ..AppConfig::default()
    }
}

#[test]
fn browse_pull_duplicate_names_use_selected_project_id() {
    let cfg = two_same_named();

    let selected = resolve_browse_pull_project(
        &cfg,
        "same-name",
        Some("p_backup"),
        "backup",
        "backup/same-name",
    )
    .unwrap()
    .expect("the selected remote/path should resolve to the backup project");
    assert_eq!(selected.id, "p_backup");
    assert_eq!(selected.excludes, vec!["backup-only/**"]);

    let inferred = resolve_browse_pull_project(&cfg, "same-name", None, "gdrive", "proj/same-name")
        .unwrap()
        .expect("an exact remote/path match may be inferred when it is unique");
    assert_eq!(inferred.id, "p_gdrive");

    assert!(resolve_browse_pull_project(
        &cfg,
        "same-name",
        Some("p_gdrive"),
        "backup",
        "backup/same-name",
    )
    .is_err());

    let mut renamed_cfg = cfg.clone();
    renamed_cfg.projects[0].name = "renamed-display-name".into();
    let renamed = resolve_browse_pull_project(
        &renamed_cfg,
        "same-name",
        None,
        "gdrive",
        "proj/same-name",
    )
    .unwrap()
    .expect("a pinned path remains owned after a display-name rename");
    assert_eq!(renamed.id, "p_gdrive");

    let mut ambiguous_cfg = cfg.clone();
    ambiguous_cfg.projects[1].remote = "gdrive".into();
    ambiguous_cfg.projects[1].remote_path = "proj/same-name".into();
    assert!(resolve_browse_pull_project(
        &ambiguous_cfg,
        "same-name",
        None,
        "gdrive",
        "proj/same-name",
    )
    .is_err());

    assert!(
        resolve_browse_pull_project(&cfg, "new-name", None, "backup", "backup/new-name")
            .unwrap()
            .is_none()
    );
}

#[test]
fn browse_pull_slash_equivalent_owner_is_not_recreated() {
    let mut cfg = AppConfig {
        remotes: vec![remote("gdrive", "proj/")],
        projects: vec![project(
            "p-slash-owner",
            "Project",
            "~/projects/project",
            "proj/Project/",
            "gdrive",
        )],
        ..AppConfig::default()
    };

    let selected = resolve_browse_pull_project(&cfg, "Project", None, "gdrive", "proj/Project")
        .unwrap()
        .expect("a slash-equivalent configured owner must be retained");
    assert_eq!(selected.id, "p-slash-owner");

    cfg.projects.push(project(
        "p-slash-collision",
        "different-label",
        "~/projects/other",
        "/proj/Project/",
        "gdrive",
    ));
    assert!(
        resolve_browse_pull_project(&cfg, "Project", None, "gdrive", "proj/Project").is_err(),
        "canonical target collisions must fail closed"
    );
}

#[test]
fn browse_pull_preserves_boundary_whitespace_without_aliasing() {
    let cfg = AppConfig {
        remotes: vec![remote("gdrive", "proj")],
        projects: vec![project(
            "p-no-space",
            "Project",
            "~/projects/project",
            "proj/Project",
            "gdrive",
        )],
        ..AppConfig::default()
    };

    let selected =
        resolve_browse_pull_project(&cfg, "Project ", None, "gdrive", "proj/Project ").unwrap();
    assert!(selected.is_none());

    let selected =
        resolve_browse_pull_project(&cfg, " Project ", None, "gdrive", "/proj/ Project ").unwrap();
    assert!(selected.is_none());
}

#[test]
fn browse_pull_uses_one_remote_child_path_authority() {
    for (base, expected_path) in [
        ("", "Project"),
        ("/", "Project"),
        ("proj", "proj/Project"),
        ("proj/", "proj/Project"),
    ] {
        let cfg = AppConfig {
            remotes: vec![remote("gdrive", base)],
            projects: vec![project(
                &format!("p-{}", expected_path.replace('/', "-")),
                "Project",
                "~/projects/project",
                "",
                "gdrive",
            )],
            ..AppConfig::default()
        };

        assert_eq!(cfg.project_remote_path(&cfg.projects[0]), expected_path);
        let selected = resolve_browse_pull_project(&cfg, "Project", None, "gdrive", expected_path)
            .unwrap()
            .expect("the canonical child path should retain its configured owner");
        assert_eq!(selected.id, cfg.projects[0].id);
    }
}

#[test]
fn scheduled_push_resolves_the_claimed_project_by_id_after_a_rename() {
    let cfg = AppConfig {
        projects: vec![project(
            "p_stable",
            "renamed",
            "~/projects/renamed",
            "proj/renamed",
            "gdrive",
        )],
        ..AppConfig::default()
    };
    let selected = resolve_project_for_push(&cfg, "p_stable", "renamed", None).unwrap();
    assert_eq!(selected.name, "renamed");
    assert!(resolve_project_for_push(&cfg, "p_missing", "renamed", None).is_err());
}

#[test]
fn scan_discovered_push_resolves_after_reload() {
    let cfg = AppConfig {
        projects: Vec::new(),
        ..AppConfig::default()
    };
    let found = vec![(String::from("/scan"), String::from("discovered"))];
    let rows = project_status_rows(&cfg, &Vec::new(), &found);
    let selected = rows
        .iter()
        .find(|row| row.name == "discovered")
        .expect("the scan-discovered project must be visible")
        .id
        .clone();
    assert_eq!(
        selected,
        discovered_project_record(&cfg, "discovered", "/scan/discovered").id
    );

    // After a reload the same selector still resolves, to the same record.
    let reloaded = cfg.clone();
    let target =
        resolve_project_for_push(&reloaded, &selected, "discovered", Some("/scan/discovered"))
            .unwrap();
    assert_eq!(target.id, selected);
    assert_eq!(target.local_path, "/scan/discovered");
    let by_operation =
        project_for_operation(&reloaded, "discovered", Some(&selected), Some("/scan/discovered"))
            .unwrap();
    assert_eq!(by_operation, target);

    // A selector of another discovered folder is stale.
    assert!(resolve_project_for_push(&reloaded, "p_other", "discovered", Some("/scan/discovered"))
        .is_err());
}

#[test]
fn scan_discovered_push_is_blocked_for_a_retired_remote_target() {
    let cfg = AppConfig {
        projects: Vec::new(),
        retired_targets: vec![RetiredTarget {
            remote: "gdrive".into(),
            remote_path: "proj/discovered".into(),
            name_at_retirement: "discovered".into(),
            project_id_at_retirement: "p_old".into(),
            retired_at_ms: 1,
            retired_by_device: "device-a".into(),
        }],
        ..AppConfig::default()
    };
    let found = vec![(String::from("/scan"), String::from("discovered"))];
    let rows = project_status_rows(&cfg, &Vec::new(), &found);
    let row = rows
        .iter()
        .find(|row| row.name == "discovered")
        .expect("the leftover directory must remain visible");
    assert!(row.retired);
    let target =
        resolve_project_for_push(&cfg, &row.id, "discovered", Some("/scan/discovered")).unwrap();
    let error = cfg
        .ensure_remote_target_writable(&target)
        .expect_err("a retired target must block a real Push");
    assert!(error.contains("Remote target gdrive:proj/discovered was retired"));
}

#[test]
fn find_project_prefers_the_one_configured_record_and_reports_the_rest() {
    let cfg = AppConfig {
        projects: vec![
            project("a1", "alpha", "~/a", "proj/alpha", "gdrive"),
            project("b1", "beta", "~/b", "proj/beta", "gdrive"),
            project("b2", "beta", "~/b2", "proj/beta2", "gdrive"),
        ],
        ..AppConfig::default()
    };
    assert_eq!(find_project(&cfg, "alpha", Some("/scan/alpha")).unwrap().id, "a1");
    assert_eq!(
        find_project(&cfg, "beta", None).unwrap_err(),
        "Project name 'beta' is ambiguous"
    );
    assert_eq!(
        find_project(&cfg, "gamma", None).unwrap_err(),
        "Project 'gamma' not found"
    );
    assert_eq!(
        find_project(&cfg, "gamma", Some("/scan/gamma")).unwrap().local_path,
        "/scan/gamma"
    );
    assert_eq!(find_project_by_id(&cfg, "b2").unwrap().name, "beta");
    assert_eq!(
        find_project_by_id(&cfg, "zz").unwrap_err(),
        "Project ID 'zz' not found"
    );
}

#[test]
fn duplicate_excludes_are_kept_once_and_blank_rows_dropped() {
    let cleaned = clean_excludes(&vec![
        "a/**".to_string(),
        "".to_string(),
        "b/**".to_string(),
        "a/**".to_string(),
    ])
    .unwrap();
    assert_eq!(cleaned, vec!["a/**", "b/**"]);
}

#[test]
fn a_new_interval_schedule_is_anchored_at_the_time_it_is_set() {
    let fresh = Schedule::Interval {
        every: 2,
        unit: IntervalUnit::Hours,
        origin_ms: 0,
    };
    assert_eq!(
        stamp_schedule_origin(fresh, 5_000),
        Schedule::Interval {
            every: 2,
            unit: IntervalUnit::Hours,
            origin_ms: 5_000
        }
    );
    let anchored = Schedule::Interval {
        every: 2,
        unit: IntervalUnit::Hours,
        origin_ms: 7,
    };
    assert_eq!(stamp_schedule_origin(anchored.clone(), 5_000), anchored);
    let weekly = Schedule::Weekly {
        weekdays: vec![1],
        minute: 60,
    };
    assert_eq!(stamp_schedule_origin(weekly.clone(), 5_000), weekly);
}

#[test]
fn only_projects_whose_effective_schedule_changed_are_reported() {
    let hourly = Schedule::Interval {
        every: 1,
        unit: IntervalUnit::Hours,
        origin_ms: 1,
    };
    let mut a = project("a", "a", "~/a", "", "gdrive");
    a.schedule = Some(hourly.clone());
    let mut b = project("b", "b", "~/b", "", "gdrive");
    b.schedule = Some(hourly.clone());
    let before = AppConfig {
        projects: vec![a.clone(), b.clone()],
        ..AppConfig::default()
    };
    let mut b_after = b.clone();
    b_after.schedule = None;
    let effective = AppConfig {
        projects: vec![a, b_after],
        ..AppConfig::default()
    };
    assert_eq!(changed_schedule_ids(&before, &effective), vec!["b"]);
}

#[test]
fn a_staging_directory_sits_beside_the_final_one() {
    assert_eq!(
        staging_path("/home/u/projects/site", "42").unwrap(),
        "/home/u/projects/.rcsync-partial-site-42"
    );
    assert!(staging_path("/", "42").is_err());
}

#[test]
fn a_leading_tilde_expands_to_the_home_directory_only() {
    assert_eq!(expand_tilde_with("~/p", Some("/home/u")), "/home/u/p");
    assert_eq!(expand_tilde_with("/abs/~/p", Some("/home/u")), "/abs/~/p");
    assert_eq!(expand_tilde_with("~user/p", Some("/home/u")), "~user/p");
    assert_eq!(expand_tilde_with("~/p", None), "~/p");
}

#[test]
fn a_local_folder_is_the_configured_one_when_it_exists_else_the_first_scanned_one() {
    let mut cfg = AppConfig {
        projects: vec![project("a1", "site", "~/work/site", "", "gdrive")],
        ..AppConfig::default()
    };
    cfg.scan_dirs = vec!["~/one".into(), "~/two".into(), "~/three".into()];
    let hits = vec![false, true, true];
    assert_eq!(
        find_local_path(&cfg, "site", &vec![true], &hits),
        Some("~/work/site".to_string())
    );
    assert_eq!(
        find_local_path(&cfg, "site", &vec![false], &hits),
        Some("~/two/site".to_string())
    );
    assert_eq!(
        find_local_path(&cfg, "other", &vec![true], &hits),
        Some("~/two/other".to_string())
    );
    assert_eq!(find_scanned_local_path(&cfg, "x", &vec![false, false, false]), None);
}

#[test]
fn a_pull_target_retargeted_while_pulling_is_not_published() {
    let mut cfg = AppConfig {
        remotes: vec![remote("gdrive", "proj")],
        projects: vec![project("p-pull", "Project", "~/projects/Project", "proj/Project", "gdrive")],
        ..AppConfig::default()
    };
    assert!(check_browse_pull_owner(&cfg, "p-pull", true, "gdrive", "proj/Project").is_ok());
    // The project is retargeted while the transfer runs.
    cfg.projects[0].remote_path = "other/Project".into();
    let error = check_browse_pull_owner(&cfg, "p-pull", true, "gdrive", "proj/Project").unwrap_err();
    assert!(error.contains("changed or became ambiguous"));
    // A new target that became configured meanwhile is refused too.
    let error = check_browse_pull_owner(&cfg, "p-new", false, "gdrive", "other/Project").unwrap_err();
    assert!(error.contains("became configured while pulling"));
}

#[test]
fn a_completed_pull_is_published_as_the_selected_or_a_new_record() {
    let mut cfg = AppConfig {
        remotes: vec![remote("gdrive", "proj")],
        projects: vec![project("p-pull", "Project", "", "proj/Project", "gdrive")],
        ..AppConfig::default()
    };
    let record = project("p-pull", "Project", "~/projects/Project", "proj/Project", "gdrive");
    publish_browse_pull(&mut cfg, &record, true);
    assert_eq!(cfg.projects.len(), 1);
    assert_eq!(cfg.projects[0].local_path, "~/projects/Project");

    let fresh = project("p-new", "Other", "~/projects/Other", "proj/Other", "gdrive");
    publish_browse_pull(&mut cfg, &fresh, false);
    assert_eq!(cfg.projects.len(), 2);
    assert_eq!(cfg.projects[1], fresh);
}

#[test]
fn concurrent_pulls_to_one_destination_stage_in_different_directories() {
    let a = staging_path("/home/u/projects/Project", "t1").unwrap();
    let b = staging_path("/home/u/projects/Project", "t2").unwrap();
    assert_ne!(a, b);
    assert!(a.starts_with("/home/u/projects/.rcsync-partial-Project-"));
}

#[test]
fn a_browse_pull_downloads_under_its_record_pointed_at_the_staging_folder() {
    let fresh = browse_pull_staged_record(None, "p_new".into(), "site", "/w/.site.part", "proj/site", "gdrive");
    assert_eq!(fresh.id, "p_new");
    assert_eq!(fresh.name, "site");
    assert_eq!(fresh.local_path, "/w/.site.part");
    assert_eq!(fresh.remote_path, "proj/site");
    assert_eq!(fresh.remote, "gdrive");
    assert!(fresh.excludes.is_empty() && fresh.schedule.is_none());
    let mut known = project("p_old", "site", "~/site", "proj/site", "gdrive");
    known.excludes = vec!["*.tmp".into()];
    let staged = browse_pull_staged_record(Some(known), "p_unused".into(), "other", "/w/.site.part", "x", "y");
    assert_eq!(staged.id, "p_old");
    assert_eq!(staged.name, "site");
    assert_eq!(staged.local_path, "/w/.site.part");
    assert_eq!(staged.remote_path, "proj/site");
    assert_eq!(staged.excludes, vec!["*.tmp".to_string()]);
}
