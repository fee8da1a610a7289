use fywaf::ruleset::{Action, RuleConfig, RuleProfile, RuleSetConfig};
use fywaf::snapshot::{
    is_snapshot_path, read_index, read_payload, write_snapshot, EngineSnapshot, ProfileIndex,
    SnapshotError,
};

fn rule(id: &str) -> RuleConfig {
    RuleConfig {
        id: id.to_string(),
        enabled: true,
        action: Action::Block,
        status_code: Some(403),
        methods: vec!["GET".to_string()],
        path_prefixes: vec!["/admin".to_string()],
        ip_cidrs: vec![],
        user_agent_contains: vec!["curl".to_string()],
        conditions: vec![],
    }
}

#[test]
fn what_is_written_is_read() {
    let payloads = vec![vec![1u8, 2, 3], vec![], vec![9u8; 300]];
    let bytes = write_snapshot(&payloads);
    assert_eq!(&bytes[..20], b"FYWAF-FY\x02\0\0\0\x03\0\0\0\0\0\0\0");
    assert_eq!(bytes.len(), 20 + 3 * 16 + 303);
    let index = read_index(&bytes).unwrap();
    assert_eq!(
        index,
        vec![
            ProfileIndex { offset: 68, size: 3 },
            ProfileIndex { offset: 71, size: 0 },
            ProfileIndex { offset: 71, size: 300 },
        ]
    );
    for (i, entry) in index.iter().enumerate() {
        assert_eq!(read_payload(&bytes, entry, i).unwrap(), payloads[i]);
    }
}

#[test]
fn empty_snapshot() {
    let bytes = write_snapshot(&vec![]);
    assert_eq!(bytes.len(), 20);
    assert_eq!(read_index(&bytes).unwrap(), vec![]);
}

#[test]
fn broken_snapshots_are_refused() {
    let bytes = write_snapshot(&vec![vec![1u8, 2, 3]]);
    assert_eq!(read_index(&bytes[..19]), Err(SnapshotError::ShortHeader));
    assert_eq!(read_index(&bytes[..35]), Err(SnapshotError::ShortIndex));
    let mut magic = bytes.clone();
    magic[7] = b'X';
    assert_eq!(read_index(&magic), Err(SnapshotError::BadMagic));
    let mut version = bytes.clone();
    version[8] = 1;
    version[9] = 1;
    assert_eq!(read_index(&version), Err(SnapshotError::Version(257)));
    let index = read_index(&bytes[..38]).unwrap();
    assert_eq!(read_payload(&bytes[..38], &index[0], 0), Err(SnapshotError::ShortProfile(0)));
}

#[test]
fn profiles_outside_the_file() {
    let bytes = write_snapshot(&vec![]);
    let far = ProfileIndex { offset: u64::MAX, size: 0 };
    assert_eq!(read_payload(&bytes, &far, 4), Err(SnapshotError::Seek(4)));
    let behind = ProfileIndex { offset: 1000, size: 0 };
    assert_eq!(read_payload(&bytes, &behind, 4), Ok(vec![]));
    let long = ProfileIndex { offset: 10, size: u64::MAX };
    assert_eq!(read_payload(&bytes, &long, 4), Err(SnapshotError::ShortProfile(4)));
    let all = ProfileIndex { offset: 0, size: 20 };
    assert_eq!(read_payload(&bytes, &all, 0).unwrap(), bytes);
}

#[test]
fn snapshot_messages() {
    let say = |e: SnapshotError| e.message("s.bin");
    assert_eq!(say(SnapshotError::ShortHeader), "failed to read snapshot header s.bin");
    assert_eq!(say(SnapshotError::BadMagic), "invalid snapshot s.bin: bad magic header");
    assert_eq!(
        say(SnapshotError::Version(7)),
        "unsupported snapshot s.bin: version 7 (expected 2)"
    );
    assert_eq!(say(SnapshotError::ShortIndex), "failed to read snapshot index s.bin");
    assert_eq!(say(SnapshotError::Seek(3)), "failed to seek to profile 3 in s.bin");
    assert_eq!(say(SnapshotError::ShortProfile(0)), "failed to read profile 0 in s.bin");
}

#[test]
fn snapshot_of_a_configuration() {
    let cfg = RuleSetConfig {
        profiles: vec![RuleProfile {
            id: "p1".to_string(),
            default_action: Action::Allow,
            rules: vec![rule("r1"), rule("r2")],
        }],
    };
    let snapshot = EngineSnapshot::from_app_config(&cfg);
    assert_eq!(snapshot.profiles.len(), 1);
    assert_eq!(snapshot.profiles[0].id, "p1");
    assert_eq!(snapshot.profiles[0].default_action, Action::Allow);
    assert_eq!(snapshot.profiles[0].rules, cfg.profiles[0].rules);
    assert_eq!(EngineSnapshot::version(), 2);
}

#[test]
fn snapshot_paths() {
    assert!(is_snapshot_path("examples/rules.snapshot.bin"));
    assert!(!is_snapshot_path("rules.BIN"));
    assert!(!is_snapshot_path("bin"));
}
