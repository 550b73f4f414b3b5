use nss_lying::Config;

fn base_config() -> Config {
    Config {
        uid_min: 1000,
        uid_max: 9999,
        user_group: None,
        shell: "/bin/bash".into(),
    }
}

fn shared_config() -> Config {
    Config {
        user_group: Some(1000),
        ..base_config()
    }
}

#[test]
fn name_synthesis_in_range() {
    let config = base_config();
    assert_eq!(config.name_for_uid(1000), Some("user-1000".to_string()));
    assert_eq!(config.name_for_uid(4321), Some("user-4321".to_string()));
    assert_eq!(config.name_for_uid(9999), Some("user-9999".to_string()));
}

#[test]
fn name_synthesis_out_of_range() {
    let config = base_config();
    assert_eq!(config.name_for_uid(999), None);
    assert_eq!(config.name_for_uid(10000), None);
    assert_eq!(config.name_for_uid(0), None);
    assert_eq!(config.name_for_uid(u32::MAX), None);
}

#[test]
fn parse_rejects_next_id_above_range() {
    let config = base_config();
    assert_eq!(config.uid_from_name("user-10000"), None);
}

#[test]
fn parse_rejects_malformed_names() {
    let config = base_config();
    assert_eq!(config.uid_from_name("user-abc"), None);
    assert_eq!(config.uid_from_name("userx-5"), None);
    assert_eq!(config.uid_from_name("user-"), None);
    assert_eq!(config.uid_from_name("user"), None);
    assert_eq!(config.uid_from_name(""), None);
    assert_eq!(config.uid_from_name("user-12a4"), None);
    assert_eq!(config.uid_from_name("user-12 4"), None);
    assert_eq!(config.uid_from_name(" user-1234"), None);
    assert_eq!(config.uid_from_name("user-1234 "), None);
}

#[test]
fn parse_rejects_non_canonical_numerals() {
    let config = base_config();
    // strict decimal: no sign, no leading zero
    assert_eq!(config.uid_from_name("user-+1234"), None);
    assert_eq!(config.uid_from_name("user--1234"), None);
    assert_eq!(config.uid_from_name("user-01234"), None);
    assert_eq!(config.uid_from_name("user-0"), None);
}

#[test]
fn parse_rejects_huge_numerals() {
    let config = base_config();
    assert_eq!(config.uid_from_name("user-4294967296"), None);
    assert_eq!(config.uid_from_name("user-99999999999999999999"), None);
}

#[test]
fn boundary_ids_are_inclusive() {
    let config = base_config();
    assert_eq!(config.uid_from_name("user-1000"), Some(1000));
    assert_eq!(config.uid_from_name("user-9999"), Some(9999));
    assert_eq!(config.uid_from_name("user-999"), None);
    assert_eq!(config.uid_from_name("user-10000"), None);
    assert!(config.name_for_uid(1000).is_some());
    assert!(config.name_for_uid(9999).is_some());
    assert_eq!(config.name_for_uid(999), None);
    assert_eq!(config.name_for_uid(10000), None);
}

#[test]
fn full_id_space_boundaries() {
    let config = Config {
        uid_min: 0,
        uid_max: u32::MAX,
        user_group: None,
        shell: "/bin/sh".into(),
    };
    assert_eq!(config.uid_from_name("user-0"), Some(0));
    assert_eq!(config.uid_from_name("user-4294967295"), Some(u32::MAX));
    assert_eq!(config.uid_from_name("user-4294967296"), None);
    assert_eq!(config.name_for_uid(0), Some("user-0".to_string()));
    assert_eq!(
        config.name_for_uid(u32::MAX),
        Some("user-4294967295".to_string())
    );
}

#[test]
fn primary_group_per_user_mode() {
    let config = base_config();
    assert_eq!(config.gid_for_uid(1000), Some(1000));
    assert_eq!(config.gid_for_uid(5555), Some(5555));
    assert_eq!(config.gid_for_uid(999), None);
    assert_eq!(config.gid_for_uid(10000), None);
}

#[test]
fn primary_group_shared_mode() {
    let config = shared_config();
    assert_eq!(config.gid_for_uid(1000), Some(1000));
    assert_eq!(config.gid_for_uid(5555), Some(1000));
    assert_eq!(config.gid_for_uid(999), None);
}

#[test]
fn group_names_shared_mode() {
    let config = shared_config();
    assert_eq!(config.name_for_gid(1000), Some("users".to_string()));
    assert_eq!(config.name_for_gid(1001), None);
    assert_eq!(config.name_for_gid(9999), None);
}

#[test]
fn group_names_per_user_mode() {
    let config = base_config();
    assert_eq!(config.name_for_gid(1000), Some("user-1000".to_string()));
    assert_eq!(config.name_for_gid(9999), Some("user-9999".to_string()));
    assert_eq!(config.name_for_gid(999), None);
}

#[test]
fn group_listing_shared_mode_has_one_entry() {
    let config = shared_config();
    let groups = config.all_groups();
    assert_eq!(groups.len(), 1);
    assert_eq!(groups[0].name, "users");
    assert_eq!(groups[0].gid, 1000);
    assert_eq!(groups[0].passwd, "x");
    assert!(groups[0].members.is_empty());
}

#[test]
fn group_listing_per_user_mode_matches_user_listing() {
    let config = Config {
        uid_max: 1009,
        ..base_config()
    };
    let users = config.all_passwds();
    let groups = config.all_groups();
    assert_eq!(users.len(), 10);
    assert_eq!(groups.len(), users.len());
    for (user, group) in users.iter().zip(groups.iter()) {
        assert_eq!(user.name, group.name);
        assert_eq!(user.uid, group.gid);
    }
}

#[test]
fn user_record_example() {
    let config = base_config();
    let p = config.uid_to_passwd(1000).unwrap();
    assert_eq!(p.name, "user-1000");
    assert_eq!(p.passwd, "x");
    assert_eq!(p.uid, 1000);
    assert_eq!(p.gid, 1000);
    assert_eq!(p.gecos, "");
    assert_eq!(p.dir, "/tmp");
    assert_eq!(p.shell, "/bin/bash");
}

#[test]
fn group_record_example() {
    let config = base_config();
    let g = config.gid_to_group(1000).unwrap();
    assert_eq!(g.name, "user-1000");
    assert_eq!(g.passwd, "x");
    assert_eq!(g.gid, 1000);
    assert!(g.members.is_empty());
}

#[test]
fn record_out_of_range_is_absent() {
    let config = base_config();
    assert!(config.uid_to_passwd(999).is_none());
    assert!(config.uid_to_passwd(10000).is_none());
    assert!(config.gid_to_group(999).is_none());
    assert!(config.gid_to_group(10000).is_none());
}

#[test]
fn shared_group_record() {
    let config = shared_config();
    let p = config.uid_to_passwd(5555).unwrap();
    assert_eq!(p.gid, 1000);
    let g = config.gid_to_group(1000).unwrap();
    assert_eq!(g.name, "users");
    assert!(config.gid_to_group(5555).is_none());
}

#[test]
fn lookup_records_by_name() {
    let config = base_config();
    let p = config.passwd_for_name("user-4321").unwrap();
    assert_eq!(p.uid, 4321);
    assert_eq!(p.name, "user-4321");
    assert!(config.passwd_for_name("user-10000").is_none());
    assert!(config.passwd_for_name("nobody").is_none());
    let g = config.group_for_name("user-4321").unwrap();
    assert_eq!(g.gid, 4321);
    assert!(config.group_for_name("users").is_none());

    let shared = shared_config();
    let g = shared.group_for_name("users").unwrap();
    assert_eq!(g.gid, 1000);
    assert_eq!(g.name, "users");
    assert!(shared.group_for_name("user-1000").is_none());
}

#[test]
fn user_listing_is_ascending_and_complete() {
    let config = Config {
        uid_max: 1004,
        ..base_config()
    };
    let users = config.all_passwds();
    assert_eq!(users.len(), 5);
    for (i, p) in users.iter().enumerate() {
        assert_eq!(p.uid, 1000 + i as u32);
        assert_eq!(p.name, format!("user-{}", p.uid));
        assert_eq!(p.shell, "/bin/bash");
    }
}

#[test]
fn uid_range_is_ascending_inclusive() {
    let config = Config {
        uid_max: 1002,
        ..base_config()
    };
    assert_eq!(config.uid_range(), vec![1000, 1001, 1002]);
}

#[test]
fn single_id_range() {
    let config = Config {
        uid_min: 42,
        uid_max: 42,
        user_group: None,
        shell: "/bin/sh".into(),
    };
    assert_eq!(config.uid_range(), vec![42]);
    assert_eq!(config.name_for_uid(42), Some("user-42".to_string()));
    assert_eq!(config.uid_from_name("user-42"), Some(42));
    assert_eq!(config.uid_from_name("user-41"), None);
    assert_eq!(config.all_passwds().len(), 1);
    assert_eq!(config.all_groups().len(), 1);
}
