use rcsync::identity::{machine_label, project_id_for_fields};
use rcsync::model::{AppConfig, Project, RemoteConfig};
use rcsync::rclone_runs::{
    bisync_preflight, sync_preflight, Preflight,
    bisync_args, check_args, combine_output, drain, ensure_source_not_empty, listing_remote,
    local_dir_has_content, remote_dir_names, remote_dirs, run_result, size_probe_args,
    source_file_count, sync_args, sync_outcome, RemoteDir,
};
use rcsync::selection::discovered_project_record;
use rcsync::status::project_status_rows;
use rcsync::watch::{changed_projects, watch_targets, ChangedProject, WatchTarget};

fn project(id: &str, name: &str, local_path: &str, remote_path: &str) -> Project {
    Project {
        id: id.into(),
        name: name.into(),
        local_path: local_path.into(),
        remote_path: remote_path.into(),
        remote: "gdrive".into(),
        excludes: Vec::new(),
        schedule: None,
        schedule_error: None,
        legacy_schedule: None,
        legacy_schedule_raw: None,
    }
}

fn cfg_with(projects: Vec<Project>) -> AppConfig {
    AppConfig {
        remotes: vec![RemoteConfig {
            name: "gdrive".into(),
            base_path: "proj".into(),
        }],
        remote: "gdrive".into(),
        excludes: vec!["node_modules/**".into()],
        projects,
        ..AppConfig::default()
    }
}

fn strings(v: &[&str]) -> Vec<String> {
    v.iter().map(|s| s.to_string()).collect()
}

#[test]
fn reading_a_stream_decodes_lossily_and_reports_failures() {
    assert_eq!(drain(None, "stdout").unwrap(), "");
    assert_eq!(drain(Some(Ok(b"ok\n".to_vec())), "stdout").unwrap(), "ok\n");
    assert_eq!(
        drain(Some(Ok(vec![b'a', 0xff, b'b'])), "stdout").unwrap(),
        "a\u{fffd}b"
    );
    assert_eq!(
        drain(Some(Err("broken pipe".into())), "stderr").unwrap_err(),
        "Failed to read rclone stderr: broken pipe"
    );
}

#[test]
fn output_keeps_non_empty_lines_stdout_first() {
    assert_eq!(
        combine_output("a\n\nb\n", "\nwarn\n"),
        "a\nb\nwarn\n"
    );
    assert_eq!(combine_output("", ""), "");
}

#[test]
fn a_run_reports_cancel_read_and_wait_failures_before_its_output() {
    assert_eq!(
        run_result(true, Ok("x".into()), Ok("".into()), Ok(Some(0))).unwrap_err(),
        "CANCELLED"
    );
    assert_eq!(
        run_result(false, Err("no stdout".into()), Ok("".into()), Ok(Some(0))).unwrap_err(),
        "no stdout"
    );
    assert_eq!(
        run_result(false, Ok("".into()), Err("no stderr".into()), Ok(Some(0))).unwrap_err(),
        "no stderr"
    );
    assert_eq!(
        run_result(false, Ok("".into()), Ok("".into()), Err("lost".into())).unwrap_err(),
        "Failed to wait for rclone: lost"
    );
    assert_eq!(
        run_result(false, Ok("done\n".into()), Ok("".into()), Ok(Some(3))).unwrap(),
        ("done\n".to_string(), 3)
    );
    assert_eq!(
        run_result(false, Ok("".into()), Ok("".into()), Ok(None)).unwrap(),
        (String::new(), -1)
    );
}

#[test]
fn the_probe_and_the_sync_carry_the_same_filters() {
    let mut p = project("p1", "site", "~/site", "");
    p.excludes = vec!["dist/**".into(), "".into()];
    let cfg = cfg_with(vec![p]);
    let p = &cfg.projects[0];
    let filters = strings(&["--exclude", "node_modules/**", "--exclude", "dist/**"]);

    let probe = size_probe_args(&cfg, p, "/home/u/site");
    assert_eq!(&probe[..3], &strings(&["size", "/home/u/site", "--json"])[..]);
    assert_eq!(&probe[3..], &filters[..]);

    let push = sync_args(&cfg, p, "push", "/home/u/site", true).unwrap();
    assert_eq!(&push[..3], &strings(&["sync", "/home/u/site", "gdrive:proj/site"])[..]);
    assert_eq!(&push[3..7], &filters[..]);
    assert_eq!(&push[7..], &strings(&["-v", "--dry-run"])[..]);

    let pull = sync_args(&cfg, p, "pull", "/home/u/site", false).unwrap();
    assert_eq!(&pull[..3], &strings(&["sync", "gdrive:proj/site", "/home/u/site"])[..]);
    assert_eq!(pull.last().unwrap(), "-v");
}

#[test]
fn a_bad_transfers_value_fails_every_run_before_rclone_starts() {
    let mut cfg = cfg_with(vec![project("p1", "site", "~/site", "")]);
    cfg.rclone_transfers = Some(9);
    let p = cfg.projects[0].clone();
    assert!(sync_args(&cfg, &p, "push", "/l", false).is_err());
    assert!(bisync_args(&cfg, &p, "/l").is_err());
    cfg.rclone_transfers = Some(4);
    let v = sync_args(&cfg, &p, "push", "/l", false).unwrap();
    let at = v.iter().position(|a| a == "--transfers").unwrap();
    assert_eq!(v[at + 1], "4");
    let b = bisync_args(&cfg, &p, "/l").unwrap();
    assert_eq!(b[0], "bisync");
    let c = check_args(&cfg, &p, "/l");
    assert_eq!(c[0], "check");
}

#[test]
fn a_failed_or_unreadable_probe_is_an_error_and_an_empty_source_is_refused() {
    assert_eq!(
        source_file_count("boom", 2, "/l").unwrap_err(),
        "Could not check whether '/l' has anything to sync (rclone size exited 2):\nboom"
    );
    assert_eq!(
        source_file_count("{\"count\":3,\"bytes\":10}", 0, "/l").unwrap(),
        3
    );
    assert!(source_file_count("not json", 0, "/l").is_err());
    assert_eq!(
        ensure_source_not_empty(0, "/l", "push", "site").unwrap_err(),
        "Refusing to push: rclone sees no files in '/l' after excludes. Continuing would delete the remote copy of 'site'."
    );
    assert!(ensure_source_not_empty(1, "/l", "push", "site").is_ok());
}

#[test]
fn a_sync_that_exits_non_zero_reports_its_code() {
    assert_eq!(sync_outcome("fine".into(), 0).unwrap(), "fine");
    assert_eq!(
        sync_outcome("bad".into(), 7).unwrap_err(),
        "bad\nExited with code 7"
    );
    assert_eq!(
        sync_outcome("bad".into(), -1).unwrap_err(),
        "bad\nExited with code -1"
    );
}

#[test]
fn browse_remote_lists_folder_names_and_marks_known_ones() {
    let names = remote_dir_names("          -1 2024-01-01 00:00:00        -1 alpha\n          -1 2024-01-01 00:00:00        -1 beta\n\n");
    assert_eq!(names, strings(&["alpha", "beta"]));

    let cfg = cfg_with(vec![project("a1", "alpha", "~/alpha", "")]);
    let rows = remote_dirs(&cfg, &names, &vec![Some("/home/u/alpha".into()), None]);
    assert_eq!(
        rows,
        vec![
            RemoteDir {
                name: "alpha".into(),
                has_local: true,
                local_path: Some("/home/u/alpha".into()),
                in_config: true,
            },
            RemoteDir {
                name: "beta".into(),
                has_local: false,
                local_path: None,
                in_config: false,
            },
        ]
    );
    assert_eq!(listing_remote(&cfg, None).name, "gdrive");
    assert_eq!(listing_remote(&cfg, Some("other")).base_path, "proj");
}

#[test]
fn a_folder_of_only_os_junk_has_no_content() {
    assert!(!local_dir_has_content(None));
    assert!(!local_dir_has_content(Some(&strings(&[".DS_Store", "._x", "Thumbs.db"]))));
    assert!(local_dir_has_content(Some(&strings(&[".DS_Store", "index.html"]))));
    assert!(!local_dir_has_content(Some(&Vec::new())));
}

#[test]
fn the_watcher_follows_existing_configured_folders_then_unnamed_scanned_ones() {
    let cfg = cfg_with(vec![
        project("a1", "alpha", "~/alpha", ""),
        project("b1", "beta", "~/beta", ""),
    ]);
    let found = vec![
        ("/scan".to_string(), "alpha".to_string(), "/scan/alpha".to_string()),
        ("/scan".to_string(), ".hidden".to_string(), "/scan/.hidden".to_string()),
        ("/scan".to_string(), "gamma".to_string(), "/scan/gamma".to_string()),
    ];
    let targets = watch_targets(&cfg, &vec![Some("/home/u/alpha".into()), None], &found);
    assert_eq!(targets.len(), 2);
    assert_eq!(targets[0].path, "/home/u/alpha");
    assert_eq!(targets[0].project_id, "a1");
    assert_eq!(targets[1].project, "gamma");
    assert_eq!(
        targets[1].project_id,
        discovered_project_record(&cfg, "gamma", "/scan/gamma").id
    );
}

#[test]
fn a_batch_of_file_events_names_each_touched_project_once_by_id() {
    let targets = vec![
        WatchTarget {
            path: "/w/b".into(),
            project_id: "p_b".into(),
            project: "beta".into(),
        },
        WatchTarget {
            path: "/w/a".into(),
            project_id: "p_a".into(),
            project: "alpha".into(),
        },
    ];
    let event = changed_projects(
        &targets,
        &strings(&["/w/b/x.txt", "/w/a/y.txt", "/w/b/z.txt", "/elsewhere/q", "/w/ab/no"]),
    );
    assert_eq!(
        event.projects,
        vec![
            ChangedProject {
                project_id: "p_a".into(),
                project: "alpha".into(),
            },
            ChangedProject {
                project_id: "p_b".into(),
                project: "beta".into(),
            },
        ]
    );
}

#[test]
fn status_rows_list_configured_and_scanned_projects_by_name() {
    let cfg = cfg_with(vec![
        project("z1", "zeta", "~/zeta", ""),
        project("a1", "alpha", "~/alpha", "custom/alpha"),
    ]);
    let found = vec![
        ("/scan".to_string(), "beta".to_string()),
        ("/scan".to_string(), "alpha".to_string()),
        ("/scan".to_string(), ".git".to_string()),
    ];
    let rows = project_status_rows(&cfg, &vec![true, false], &found);
    let names: Vec<&str> = rows.iter().map(|r| r.name.as_str()).collect();
    assert_eq!(names, vec!["alpha", "beta", "zeta"]);
    assert_eq!(rows[0].remote_path, "custom/alpha");
    assert!(!rows[0].exists_locally);
    assert_eq!(rows[1].local_path, "/scan/beta");
    assert_eq!(rows[1].remote_path, "proj/beta");
    assert!(rows[1].exists_locally);
    assert!(rows[2].exists_locally);
    assert_eq!(
        rows[1].id,
        project_id_for_fields("beta", "/scan/beta", "", "gdrive")
    );
}

#[test]
fn the_machine_label_is_lower_case_without_the_local_suffix() {
    assert_eq!(machine_label("Studio-Mac.local"), "studio-mac");
    assert_eq!(machine_label("  My Laptop  "), "my-laptop");
    assert_eq!(machine_label(""), "default");
    assert_eq!(machine_label("host.LOCAL"), "host");
}

#[test]
fn status_rows_of_one_name_keep_their_configured_order() {
    let cfg = cfg_with(vec![
        project("z1", "dup", "~/one", ""),
        project("b1", "beta", "~/beta", ""),
        project("a1", "dup", "~/two", ""),
    ]);
    let rows = project_status_rows(&cfg, &vec![true, true, true], &Vec::new());
    let ids: Vec<&str> = rows.iter().map(|r| r.id.as_str()).collect();
    assert_eq!(ids, vec!["b1", "z1", "a1"]);
}

#[test]
fn transfers_check_the_folder_and_refuse_an_empty_source_in_order() {
    assert_eq!(sync_preflight("pull"), Vec::<Preflight>::new());
    assert_eq!(
        sync_preflight("push"),
        vec![Preflight::RequireLocalPath, Preflight::RefuseEmptySource]
    );
    assert_eq!(sync_preflight("mirror"), vec![Preflight::RequireLocalPath]);
    assert_eq!(
        bisync_preflight(),
        vec![Preflight::RequireLocalPath, Preflight::RefuseEmptySource]
    );
}
