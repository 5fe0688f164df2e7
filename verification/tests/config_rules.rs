use rcsync::filters::{validate_exclude_pattern, validate_excludes, validate_rclone_transfers};
use rcsync::identity::{
    fresh_project_id_from, project_id_for_fields, sanitize_machine_label,
};
use rcsync::model::{
    canonical_remote_path, join_remote_child_path, AppConfig, Project, RemoteConfig,
    RetiredTarget,
};

fn cfg_with_base(base: &str) -> AppConfig {
    AppConfig {
        remotes: vec![RemoteConfig {
            name: "onedrive".into(),
            base_path: base.into(),
        }],
        remote: "onedrive".into(),
        ..Default::default()
    }
}

fn project(remote_path: &str) -> Project {
    Project {
        id: String::new(),
        name: "example".into(),
        local_path: "~/projects/example".into(),
        remote_path: remote_path.into(),
        remote: "onedrive".into(),
        excludes: vec![],
        schedule: None,
        schedule_error: None,
        legacy_schedule: None,
        legacy_schedule_raw: None,
    }
}

#[test]
fn an_unset_remote_path_follows_the_remotes_configured_base() {
    let cfg = cfg_with_base("Projects");
    assert_eq!(cfg.project_remote_path(&project("")), "Projects/example");
    assert_eq!(
        cfg.remote_path_for_project(&project("")),
        "onedrive:Projects/example"
    );
}

#[test]
fn remote_child_path_normalizes_slashes_but_preserves_whitespace() {
    let cases = [
        ("", "Project", "Project"),
        ("/", "Project", "Project"),
        ("proj", "Project", "proj/Project"),
        ("proj/", "Project", "proj/Project"),
        ("/proj/", " Project ", "proj/ Project "),
    ];
    for (base, child, expected) in cases {
        assert_eq!(
            join_remote_child_path(base, child),
            expected,
            "base={base:?}, child={child:?}"
        );
    }
}

#[test]
fn an_explicit_remote_path_still_overrides_the_base() {
    let cfg = cfg_with_base("Projects");
    assert_eq!(
        cfg.project_remote_path(&project("archive/old-example")),
        "archive/old-example"
    );
}

#[test]
fn a_leading_slash_in_an_override_is_stripped() {
    let cfg = cfg_with_base("Projects");
    assert_eq!(
        cfg.project_remote_path(&project("/rooted/path")),
        "rooted/path"
    );
}

#[test]
fn the_path_and_the_full_location_cannot_disagree() {
    let cfg = cfg_with_base("Backups");
    for rp in ["", "custom/place", "/rooted"] {
        let p = project(rp);
        assert_eq!(
            cfg.remote_path_for_project(&p),
            format!("onedrive:{}", cfg.project_remote_path(&p))
        );
    }
}

#[test]
fn a_blank_row_is_not_a_filter_but_a_blank_row_with_a_line_break_is_refused() {
    assert_eq!(validate_exclude_pattern("").unwrap(), None);
    assert_eq!(validate_exclude_pattern("   ").unwrap(), None);
    assert!(
        validate_exclude_pattern("  \n").is_err(),
        "the line-break rule is checked first, so this is refused rather than skipped"
    );
    assert_eq!(
        validate_exclude_pattern("node_modules/**").unwrap(),
        Some("node_modules/**")
    );
}

#[test]
fn padded_and_broken_patterns_are_refused_with_their_reason() {
    for bad in [" leading/**", "trailing/** ", "\tx"] {
        let error = validate_exclude_pattern(bad).unwrap_err();
        assert!(error.contains("leading or trailing whitespace"), "{error}");
        assert!(error.ends_with(&format!("{:?}", bad)), "{error}");
    }
    for bad in ["break/**\n", "cr/**\r"] {
        let error = validate_exclude_pattern(bad).unwrap_err();
        assert!(error.contains("line break"), "{error}");
    }
}

#[test]
fn a_list_is_rejected_on_its_first_bad_entry() {
    assert!(validate_excludes(&["a/**".to_string(), "   ".to_string()]).is_ok());
    let error = validate_excludes(&[
        "a/**".to_string(),
        "b/** ".to_string(),
        "c\n".to_string(),
    ])
    .unwrap_err();
    assert!(error.contains("whitespace"), "{error}");
}

#[test]
fn transfers_accepts_only_automatic_or_one_through_eight() {
    assert!(validate_rclone_transfers(None).is_ok());
    for n in 1..=8 {
        assert!(
            validate_rclone_transfers(Some(n)).is_ok(),
            "{} should be allowed",
            n
        );
    }
    for n in [0, 9, -1, 1000] {
        assert!(
            validate_rclone_transfers(Some(n)).is_err(),
            "{} should be rejected",
            n
        );
    }
}

#[test]
fn a_rejected_transfer_value_is_named_in_the_error() {
    assert_eq!(
        validate_rclone_transfers(Some(-12)).unwrap_err(),
        "rclone transfers must be between 1 and 8, or unset for Automatic; got -12"
    );
}

#[test]
fn project_ids_are_stable_for_the_same_record_and_distinguish_similar_records() {
    let first = project_id_for_fields("a-b", "~/p/a-b", "proj/a-b", "gdrive");
    assert_eq!(
        first,
        project_id_for_fields("a-b", "~/p/a-b", "proj/a-b", "gdrive")
    );
    assert_ne!(
        first,
        project_id_for_fields("a b", "~/p/a-b", "proj/a-b", "gdrive")
    );
    assert!(first.starts_with("p_"));
}

fn reference_fnv(parts: [&str; 4]) -> String {
    let mut hash = 0xcbf29ce484222325u64;
    for part in parts {
        for byte in part.as_bytes() {
            hash ^= u64::from(*byte);
            hash = hash.wrapping_mul(0x100000001b3);
        }
        hash ^= 0xff;
        hash = hash.wrapping_mul(0x100000001b3);
    }
    format!("p_{hash:016x}")
}

#[test]
fn project_id_is_the_fnv_fingerprint_of_the_record() {
    let parts = ["café", "~/p/café", "", "gdrive"];
    let id = project_id_for_fields(parts[0], parts[1], parts[2], parts[3]);
    assert_eq!(id, reference_fnv(parts));
    assert_eq!(id.len(), 18);
    // Field boundaries count: moving a character across them changes the ID.
    assert_ne!(
        project_id_for_fields("ab", "c", "", ""),
        project_id_for_fields("a", "bc", "", "")
    );
}

#[test]
fn fresh_ids_carry_the_clock_and_the_serial() {
    assert_eq!(
        fresh_project_id_from(0x1f, 2),
        "p_000000000000001f0000000000000002"
    );
}

#[test]
fn machine_labels_are_sanitized() {
    assert_eq!(sanitize_machine_label("workstation"), "workstation");
    assert_eq!(sanitize_machine_label("My Laptop!!"), "My-Laptop");
    assert_eq!(sanitize_machine_label("--"), "default");
    assert_eq!(sanitize_machine_label(""), "default");
    assert_eq!(sanitize_machine_label("a  b__c"), "a-b__c");
    let long = "x".repeat(80);
    assert_eq!(sanitize_machine_label(&long), "x".repeat(63));
}

#[test]
fn canonical_paths_strip_only_slashes() {
    assert_eq!(canonical_remote_path("//a/b//"), "a/b");
    assert_eq!(canonical_remote_path(" a "), " a ");
    assert_eq!(canonical_remote_path("///"), "");
}

#[test]
fn a_retired_target_blocks_writes_and_unreadable_records_fail_closed() {
    let mut cfg = cfg_with_base("Projects");
    let p = project("");
    assert!(cfg.ensure_remote_target_writable(&p).is_ok());
    cfg.retired_targets.push(RetiredTarget {
        remote: "onedrive".into(),
        remote_path: "/Projects/example/".into(),
        name_at_retirement: "example".into(),
        project_id_at_retirement: "p_old".into(),
        retired_at_ms: 5,
        retired_by_device: "device-a".into(),
    });
    assert_eq!(
        cfg.retired_target_for(&p).map(|t| t.project_id_at_retirement.clone()),
        Some("p_old".to_string())
    );
    assert_eq!(
        cfg.ensure_remote_target_writable(&p).unwrap_err(),
        "Remote target onedrive:/Projects/example/ was retired on device-a. Reattach it explicitly before writing again."
    );
    // A same-name project on another path is not blocked.
    assert!(cfg.ensure_remote_target_writable(&project("elsewhere")).is_ok());
    cfg.retired_targets.clear();
    cfg.retired_targets_unreadable = true;
    assert!(cfg
        .ensure_remote_target_writable(&p)
        .unwrap_err()
        .contains("unreadable"));
}

#[test]
fn an_unknown_project_remote_uses_the_proj_base() {
    let cfg = cfg_with_base("Projects");
    let mut p = project("");
    p.remote = "backup".into();
    assert_eq!(cfg.remote_path_for_project(&p), "backup:proj/example");
    p.remote = String::new();
    assert_eq!(cfg.default_remote_name(), "onedrive");
    assert_eq!(cfg.remote_path_for_project(&p), "onedrive:Projects/example");
    assert_eq!(cfg.active_remote().base_path, "Projects");
    assert_eq!(cfg.get_remote("nope").base_path, "proj");
}
