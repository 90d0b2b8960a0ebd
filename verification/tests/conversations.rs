use codex_switch::conversations::{
    can_link_file, conversation_fingerprint, conversation_names, finish_restore, finish_snapshot,
    first_file_step, has_codex_desktop_conversations_backup, latest_snapshot_dir_for_codex_dir,
    next_file_step, next_snapshot_step, pre_restore_name, prune_old_snapshots,
    restore_codex_desktop_conversations, snapshot_codex_desktop_conversations,
    snapshot_codex_desktop_conversations_if_changed, snapshot_rel_key, staging_name,
    write_snapshot_meta, ConversationFacts, CopiedCounts, FileStamp, FileStep, RestoreSource,
    SnapshotDir, SnapshotStep,
};
use codex_switch::json::{parse_json, Json};

fn json(text: &str) -> Json {
    parse_json(text).expect("JSON text")
}

fn stamp(path: &str, len: u64, mtime: u64) -> FileStamp {
    FileStamp {
        path: path.to_string(),
        len,
        mtime,
    }
}

fn facts() -> ConversationFacts {
    ConversationFacts {
        codex_dir: true,
        sessions: true,
        archived: true,
        index: true,
        state_dbs: 1,
    }
}

fn dir(name: &str, codex_dir: Option<&str>, modified: i128) -> SnapshotDir {
    SnapshotDir {
        name: name.to_string(),
        meta: codex_dir.map(|codex_dir| {
            let mut meta = Json::object();
            meta.insert("codexConfigDir", Json::string(codex_dir));
            meta
        }),
        modified,
    }
}

#[test]
fn snapshot_skips_when_no_codex_dir() {
    let missing = ConversationFacts {
        codex_dir: false,
        ..facts()
    };
    let outcome = snapshot_codex_desktop_conversations(true, &missing).expect("left out");
    assert_eq!(outcome.skipped_reason.as_deref(), Some("no_codex_dir"));
}

#[test]
fn snapshot_skips_when_no_conversation_data() {
    let empty = ConversationFacts {
        codex_dir: true,
        sessions: false,
        archived: false,
        index: false,
        state_dbs: 0,
    };
    let outcome = snapshot_codex_desktop_conversations(true, &empty).expect("left out");
    assert_eq!(
        outcome.skipped_reason.as_deref(),
        Some("no_conversation_data")
    );
}

#[test]
fn a_snapshot_is_made_only_where_the_user_wants_it() {
    let outcome = snapshot_codex_desktop_conversations(false, &facts()).expect("left out");
    assert_eq!(outcome.skipped_reason.as_deref(), Some("toggle_off"));
    assert!(snapshot_codex_desktop_conversations(true, &facts()).is_none());
}

#[test]
fn latest_snapshot_only_matches_same_codex_dir() {
    let dirs = vec![
        dir("20260813-1", Some("/me/.codex"), 5),
        dir("pre-restore-1", Some("/me/.codex"), 9),
        dir("20260813-2", Some("/me/.codex"), 7),
        dir("20260813-3", Some("/me/.codex"), 7),
        dir("20260813-4", None, 8),
    ];
    assert_eq!(latest_snapshot_dir_for_codex_dir(&dirs, "/me/.codex"), Some(2));
    assert_eq!(latest_snapshot_dir_for_codex_dir(&dirs, "/me/other-codex"), None);
    assert!(has_codex_desktop_conversations_backup(&dirs, "/me/.codex"));
    assert!(!has_codex_desktop_conversations_backup(&dirs, "/me/other-codex"));
    match restore_codex_desktop_conversations(&dirs, "/me/.codex") {
        RestoreSource::Snapshot(i) => assert_eq!(i, 2),
        other => panic!("{other:?}"),
    }
    match restore_codex_desktop_conversations(&dirs, "/me/other-codex") {
        RestoreSource::Missing(outcome) => {
            assert_eq!(outcome.skipped_reason.as_deref(), Some("no_backup"))
        }
        other => panic!("{other:?}"),
    }
}

#[test]
fn if_changed_skips_unchanged_and_snapshots_after_change() {
    let stamps = vec![
        stamp("sessions/2026/08/13/rollout-test.jsonl", 65, 1_000),
        stamp("session_index.jsonl", 33, 1_000),
    ];
    assert!(
        snapshot_codex_desktop_conversations_if_changed(true, &facts(), &stamps, None).is_none()
    );

    let fingerprint = conversation_fingerprint(&stamps).expect("a fingerprint");
    let counts = CopiedCounts {
        jsonl_files: 2,
        archived_files: 1,
        state_dbs: 1,
    };
    let meta = write_snapshot_meta("/me/.codex", "now", &counts, Some(&fingerprint));
    let second =
        snapshot_codex_desktop_conversations_if_changed(true, &facts(), &stamps, Some(&meta))
            .expect("left out");
    assert_eq!(second.skipped_reason.as_deref(), Some("unchanged"));

    let changed = vec![
        stamp("sessions/2026/08/13/rollout-test.jsonl", 67, 1_000),
        stamp("session_index.jsonl", 33, 1_000),
    ];
    assert!(
        snapshot_codex_desktop_conversations_if_changed(true, &facts(), &changed, Some(&meta))
            .is_none()
    );
    let nothing =
        snapshot_codex_desktop_conversations_if_changed(true, &facts(), &Vec::new(), Some(&meta))
            .expect("left out");
    assert_eq!(
        nothing.skipped_reason.as_deref(),
        Some("no_conversation_data")
    );
}

#[test]
fn fingerprints_do_not_depend_on_the_order_of_files() {
    let a = vec![stamp("a", 1, 2), stamp("b", 3, 4), stamp("a", 0, 9)];
    let b = vec![stamp("b", 3, 4), stamp("a", 0, 9), stamp("a", 1, 2)];
    assert_eq!(conversation_fingerprint(&a), conversation_fingerprint(&b));
    assert_ne!(
        conversation_fingerprint(&a),
        conversation_fingerprint(&vec![stamp("a", 1, 2), stamp("b", 3, 5), stamp("a", 0, 9)])
    );
    assert_eq!(conversation_fingerprint(&Vec::new()), None);
}

#[test]
fn a_fingerprint_is_the_hash_of_the_stamps() {
    let prime: u64 = 0x0000_0100_0000_01b3;
    let mut hash: u64 = 0xcbf2_9ce4_8422_2325;
    for value in [1, u64::from(b'x'), 10, 20] {
        hash = (hash ^ value).wrapping_mul(prime);
    }
    assert_eq!(
        conversation_fingerprint(&vec![stamp("x", 10, 20)]),
        Some(format!("{hash:016x}"))
    );
}

#[test]
fn snapshot_commits_atomically_without_leaving_staging_dir() {
    let counts = CopiedCounts {
        jsonl_files: 2,
        archived_files: 1,
        state_dbs: 1,
    };
    let none = CopiedCounts {
        jsonl_files: 0,
        archived_files: 0,
        state_dbs: 0,
    };
    let steps = |results: &[bool], counts: &CopiedCounts| {
        let mut step = SnapshotStep::MakeStaging;
        for ok in results {
            step = next_snapshot_step(step, *ok, counts);
        }
        step
    };
    assert!(steps(&[true, true, true], &counts) == SnapshotStep::Rename);
    assert!(steps(&[true, true, false, true, true], &counts) == SnapshotStep::Done);
    assert!(steps(&[true, true, true, false], &counts) == SnapshotStep::RemoveStaging);
    assert!(steps(&[true, true, true, false, true], &counts) == SnapshotStep::Failed);
    assert!(steps(&[true, true], &none) == SnapshotStep::Discard);
    assert!(steps(&[true, true, true], &none) == SnapshotStep::Skipped);
    assert!(steps(&[false], &counts) == SnapshotStep::Failed);

    let outcome = finish_snapshot(&counts, "/backups/1");
    assert_eq!(outcome.snapshot_dir.as_deref(), Some("/backups/1"));
    assert_eq!(outcome.jsonl_files, 2);
    assert_eq!(outcome.archived_files, 1);
    assert_eq!(outcome.state_dbs, 1);
    assert_eq!(outcome.skipped_reason, None);
    assert_eq!(
        finish_snapshot(&none, "/backups/1").skipped_reason.as_deref(),
        Some("no_conversation_data")
    );
    let restored = finish_restore(&counts, "/backups/1");
    assert_eq!(restored.snapshot_dir.as_deref(), Some("/backups/1"));
    assert_eq!(restored.jsonl_files, 2);
}

#[test]
fn incremental_snapshot_reuses_unchanged_files_and_copies_deltas() {
    let earlier = vec![
        stamp("sessions/a.jsonl", 10, 1),
        stamp("sessions/b.jsonl", 10, 1),
    ];
    assert!(can_link_file(&earlier, &stamp("sessions/a.jsonl", 10, 1)));
    assert!(!can_link_file(&earlier, &stamp("sessions/a.jsonl", 11, 1)));
    assert!(!can_link_file(&earlier, &stamp("sessions/a.jsonl", 10, 2)));
    assert!(!can_link_file(&earlier, &stamp("sessions/c.jsonl", 10, 1)));

    let link = first_file_step(Some(&earlier), &stamp("sessions/a.jsonl", 10, 1));
    assert!(link == FileStep::Link);
    assert!(next_file_step(link, true) == FileStep::Done(true));
    let copy = next_file_step(link, false);
    assert!(copy == FileStep::Copy);
    assert!(next_file_step(copy, true) == FileStep::Done(true));
    assert!(next_file_step(copy, false) == FileStep::Done(false));
    assert!(first_file_step(None, &stamp("sessions/a.jsonl", 10, 1)) == FileStep::Copy);
    assert!(first_file_step(Some(&earlier), &stamp("sessions/c.jsonl", 1, 1)) == FileStep::Copy);
}

#[test]
fn the_ten_latest_snapshots_stay() {
    let mut dirs: Vec<SnapshotDir> = (0..12)
        .map(|i| dir(&format!("2026-{i}"), Some("/me/.codex"), i))
        .collect();
    dirs.push(dir("pre-restore-1", None, -5));
    dirs.push(dir("in-progress-1", None, 0));
    dirs.push(dir("in-progress-2", None, 600_000_000_000));
    assert_eq!(prune_old_snapshots(&dirs, 600_000_000_001), vec![0, 1, 13]);
    assert_eq!(prune_old_snapshots(&dirs, 600_000_000_000), vec![0, 1]);
    assert!(prune_old_snapshots(&Vec::new(), 0).is_empty());
}

#[test]
fn snapshots_are_described() {
    let counts = CopiedCounts {
        jsonl_files: 3,
        archived_files: 2,
        state_dbs: 1,
    };
    let meta = write_snapshot_meta("/me/.codex", "2026-08-13T00:00:00+08:00", &counts, None);
    assert!(meta.equals(&json(
        r#"{
            "codexConfigDir": "/me/.codex",
            "createdAt": "2026-08-13T00:00:00+08:00",
            "jsonlFiles": 3,
            "archivedFiles": 2,
            "stateDbs": 1,
            "fingerprint": null
        }"#
    )));
    assert_eq!(staging_name("1"), "in-progress-1");
    assert_eq!(pre_restore_name("1"), "pre-restore-1");
    assert_eq!(snapshot_rel_key("sessions", "a\\b.jsonl"), "sessions/a/b.jsonl");
    assert_eq!(
        conversation_names(),
        ["sessions", "archived_sessions", "session_index.jsonl"]
    );
}

#[test]
fn a_changed_size_or_time_changes_the_fingerprint() {
    let of = |len: u64, mtime: u64| {
        conversation_fingerprint(&vec![
            stamp("b.jsonl", 1, 2),
            stamp("a.jsonl", len, mtime),
            stamp("c.jsonl", 3, 4),
        ])
    };
    assert_ne!(of(5, 6), of(5, 7));
    assert_ne!(of(5, 6), of(8, 6));
    assert_eq!(of(5, 6), of(5, 6));
}
