use rcsync::model::{AppConfig, Project, RemoteConfig};
use rcsync::rclone_args::{build_exclude_args, build_transfer_args, project_exclude_args};
use rcsync::rclone_output::{check_output_is_readable, is_os_junk, parse_check_output, parse_rclone_size_count};

fn test_cfg(excludes: Vec<&str>) -> AppConfig {
    AppConfig {
        rclone_path: "rclone".into(),
        remote: "gdrive".into(),
        remotes: vec![RemoteConfig {
            name: "gdrive".into(),
            base_path: "proj".into(),
        }],
        excludes: excludes.into_iter().map(str::to_string).collect(),
        default_excludes: vec![],
        extra_excludes: vec![],
        projects: vec![],
        scan_dirs: vec![],
        default_pull_dir: String::new(),
        auto_check_on_launch: false,
        rclone_transfers: None,
        ..Default::default()
    }
}

fn project_with(excludes: Vec<&str>) -> Project {
    Project {
        id: String::new(),
        name: "size-probe-test".into(),
        local_path: String::new(),
        remote_path: String::new(),
        remote: "gdrive".into(),
        excludes: excludes.into_iter().map(str::to_string).collect(),
        schedule: None,
        schedule_error: None,
        legacy_schedule: None,
        legacy_schedule_raw: None,
    }
}

#[test]
fn automatic_passes_no_transfers_flag() {
    let mut cfg = test_cfg(vec![]);
    cfg.rclone_transfers = None;
    assert!(build_transfer_args(&cfg).unwrap().is_empty());
}

#[test]
fn a_configured_value_becomes_exactly_one_flag_pair() {
    let mut cfg = test_cfg(vec![]);
    for n in [1, 8] {
        cfg.rclone_transfers = Some(n);
        assert_eq!(
            build_transfer_args(&cfg).unwrap(),
            vec!["--transfers".to_string(), n.to_string()]
        );
    }
}

#[test]
fn out_of_range_values_fail_before_rclone_is_spawned() {
    let mut cfg = test_cfg(vec![]);
    for n in [0, 9, -1, 999] {
        cfg.rclone_transfers = Some(n);
        assert!(
            build_transfer_args(&cfg).is_err(),
            "{} should be rejected, not clamped or passed through",
            n
        );
    }
}

#[test]
fn the_source_probe_argv_carries_filters_and_nothing_else() {
    let mut cfg = test_cfg(vec!["node_modules/**"]);
    cfg.rclone_transfers = Some(8);
    let project = project_with(vec!["artifacts/**"]);

    let mut probe = vec!["size".to_string(), "/tmp/x".to_string(), "--json".to_string()];
    probe.extend(build_exclude_args(&cfg));
    probe.extend(project_exclude_args(&project));

    assert!(
        !probe.iter().any(|a| a == "--transfers"),
        "performance flags must never reach the empty-source probe"
    );
    assert_eq!(
        probe.iter().filter(|a| *a == "--exclude").count(),
        2,
        "the probe must carry both the global and the per-project excludes"
    );
}

#[test]
fn sync_and_probe_agree_on_the_filter_arguments() {
    let cfg = test_cfg(vec!["node_modules/**", ".git/**"]);
    let project = project_with(vec!["artifacts/**"]);

    let mut filters = build_exclude_args(&cfg);
    filters.extend(project_exclude_args(&project));

    assert_eq!(
        filters,
        vec![
            "--exclude", "node_modules/**",
            "--exclude", ".git/**",
            "--exclude", "artifacts/**",
        ]
    );
}

#[test]
fn blank_project_rows_are_not_filters() {
    let project = project_with(vec!["", "  ", "a/**"]);
    assert_eq!(project_exclude_args(&project), vec!["--exclude", "a/**"]);
}

#[test]
fn all_matching_files_are_synced() {
    let out = parse_check_output("= a.txt\n= b.txt\n", 0).unwrap();
    assert!(out.synced);
    assert_eq!((out.differences, out.matches), (0, 2));
}

#[test]
fn itemized_differences_are_counted_and_not_synced() {
    let out = parse_check_output("= a.txt\n* b.txt\n+ c.txt\n- d.txt\n", 1).unwrap();
    assert!(!out.synced);
    assert_eq!((out.differences, out.matches), (3, 1));
}

#[test]
fn an_rclone_failure_is_never_reported_as_synced() {
    let failures: [(&str, i32); 4] = [
        ("Failed to create file system for \"gdrive:\": couldn't fetch token", 7),
        ("", 3),
        ("ERROR: 2 differences found", 1),
        ("! unreadable.txt\n= a.txt\n", 0),
    ];
    for (raw, code) in failures {
        assert!(
            parse_check_output(raw, code).is_err(),
            "must refuse to give a verdict for exit {} / {:?}",
            code,
            raw
        );
    }
}

#[test]
fn an_empty_project_that_rclone_checked_cleanly_is_synced() {
    let out = parse_check_output("", 0).unwrap();
    assert!(out.synced);
    assert_eq!(out.matches, 0);
}

#[test]
fn check_details_itemize_each_difference_and_notice() {
    let out = parse_check_output(
        "2024 NOTICE: gdrive root: 1 differences found\r\n* b.txt\n= a.txt\n+ c.txt",
        1,
    )
    .unwrap();
    assert_eq!(
        out.details,
        "gdrive root: 1 differences found\n[CHANGED] b.txt\n[REMOTE ONLY] c.txt\n2 differences, 1 matching.\n"
    );
    let clean = parse_check_output("= a.txt\n", 0).unwrap();
    assert_eq!(clean.details, "All 1 files match.\n");
    assert_eq!(
        parse_check_output("x", 9).unwrap_err(),
        "rclone check failed (exit 9):\nx"
    );
    assert_eq!(
        parse_check_output("! u.txt\n", 0).unwrap_err(),
        "1 file(s) could not be compared, so the sync status is unknown:\n[UNREADABLE] u.txt\n"
    );
}

#[test]
fn parses_a_real_size_payload() {
    assert_eq!(
        parse_rclone_size_count("{\"count\":42,\"bytes\":1234}").unwrap(),
        42
    );
}

#[test]
fn parses_past_leading_stderr_noise() {
    let out = "NOTICE: Config file not found\n{\"count\":3,\"bytes\":9}\n";
    assert_eq!(parse_rclone_size_count(out).unwrap(), 3);
}

#[test]
fn unreadable_output_is_an_error_not_an_empty_source() {
    for bad in ["", "rclone: command not found", "{\"bytes\":10}", "{ not json"] {
        assert!(
            parse_rclone_size_count(bad).is_err(),
            "unreadable rclone output must fail closed, got Ok for {:?}",
            bad
        );
    }
}

#[test]
fn an_explicit_zero_count_is_read_as_zero() {
    assert_eq!(parse_rclone_size_count("{\"count\":0,\"bytes\":0}").unwrap(), 0);
}

#[test]
fn os_junk_is_recognized() {
    for junk in [".DS_Store", "Thumbs.db", "desktop.ini", "._foo"] {
        assert!(is_os_junk(junk), "{junk}");
    }
    for real in ["src", "_x", ".git", "readme"] {
        assert!(!is_os_junk(real), "{real}");
    }
}

#[test]
fn check_output_readability_follows_markers() {
    assert!(check_output_is_readable(""));
    assert!(check_output_is_readable("= a.txt\n* b.txt\nplain notice\n"));
    assert!(check_output_is_readable("é\n"));
    assert!(!check_output_is_readable("aé rest\n"));
    assert!(!check_output_is_readable("€x\n"));
}
