use kibo::history::{filter_by_snapshot, read_history, take_last, HistoryEntry};

#[test]
fn test_history_entry_new() {
    let entry = HistoryEntry::new("save", Some("snapshot1"), vec!["--include-db".to_string()]);

    assert_eq!(entry.command, "SAVE");
    assert_eq!(entry.snapshot, Some("snapshot1".to_string()));
    assert_eq!(entry.flags, vec!["--include-db"]);
    assert!(!entry.timestamp.is_empty());
    let read = chrono::DateTime::parse_from_rfc3339(&entry.timestamp).unwrap();
    assert!(read.timestamp() > 1_600_000_000);
    assert!(!entry.timestamp.contains(' '));
}

#[test]
fn test_history_entry_new_without_snapshot() {
    let entry = HistoryEntry::new("list", None, vec![]);

    assert_eq!(entry.command, "LIST");
    assert_eq!(entry.snapshot, None);
    assert!(entry.flags.is_empty());
}

#[test]
fn test_history_entry_to_line_with_snapshot() {
    let entry = HistoryEntry {
        timestamp: "2026-01-01T12:00:00Z".to_string(),
        command: "SAVE".to_string(),
        snapshot: Some("snapshot1".to_string()),
        flags: vec!["--include-db".to_string()],
    };

    let line = entry.to_line();
    assert_eq!(line, "2026-01-01T12:00:00Z SAVE snapshot1 --include-db");
}

#[test]
fn test_history_entry_to_line_without_snapshot() {
    let entry = HistoryEntry {
        timestamp: "2026-01-01T12:00:00Z".to_string(),
        command: "LIST".to_string(),
        snapshot: None,
        flags: vec![],
    };

    let line = entry.to_line();
    assert_eq!(line, "2026-01-01T12:00:00Z LIST");
}

#[test]
fn test_history_entry_from_line_with_snapshot() {
    let line = "2026-01-01T12:00:00Z SAVE snapshot1 --include-db";
    let entry = HistoryEntry::from_line(line).unwrap();

    assert_eq!(entry.timestamp, "2026-01-01T12:00:00Z");
    assert_eq!(entry.command, "SAVE");
    assert_eq!(entry.snapshot, Some("snapshot1".to_string()));
    assert_eq!(entry.flags, vec!["--include-db"]);
}

#[test]
fn test_history_entry_from_line_without_snapshot() {
    let line = "2026-01-01T12:00:00Z LIST --verbose";
    let entry = HistoryEntry::from_line(line).unwrap();

    assert_eq!(entry.timestamp, "2026-01-01T12:00:00Z");
    assert_eq!(entry.command, "LIST");
    assert_eq!(entry.snapshot, None);
    assert_eq!(entry.flags, vec!["--verbose"]);
}

#[test]
fn test_history_entry_from_line_minimal() {
    let line = "2026-01-01T12:00:00Z LOAD";
    let entry = HistoryEntry::from_line(line).unwrap();

    assert_eq!(entry.timestamp, "2026-01-01T12:00:00Z");
    assert_eq!(entry.command, "LOAD");
    assert_eq!(entry.snapshot, None);
    assert!(entry.flags.is_empty());
}

#[test]
fn test_history_entry_from_line_invalid() {
    let line = "invalid";
    let entry = HistoryEntry::from_line(line);

    assert!(entry.is_none());
}

#[test]
fn test_history_entry_display_with_snapshot() {
    let entry = HistoryEntry {
        timestamp: "2026-01-01T12:00:00Z".to_string(),
        command: "SAVE".to_string(),
        snapshot: Some("snapshot1".to_string()),
        flags: vec!["--include-db".to_string()],
    };

    let display = entry.display();
    assert!(display.contains("2026-01-01T12:00:00Z"));
    assert!(display.contains("SAVE"));
    assert!(display.contains("snapshot1"));
    assert!(display.contains("--include-db"));
}

#[test]
fn test_history_entry_display_without_snapshot() {
    let entry = HistoryEntry {
        timestamp: "2026-01-01T12:00:00Z".to_string(),
        command: "LIST".to_string(),
        snapshot: None,
        flags: vec![],
    };

    let display = entry.display();
    assert!(display.contains("2026-01-01T12:00:00Z"));
    assert!(display.contains("LIST"));
}

#[test]
fn test_filter_by_snapshot() {
    let entries = vec![
        HistoryEntry {
            timestamp: "2026-01-01T12:00:00Z".to_string(),
            command: "SAVE".to_string(),
            snapshot: Some("snapshot1".to_string()),
            flags: vec![],
        },
        HistoryEntry {
            timestamp: "2026-01-01T13:00:00Z".to_string(),
            command: "SAVE".to_string(),
            snapshot: Some("snapshot2".to_string()),
            flags: vec![],
        },
        HistoryEntry {
            timestamp: "2026-01-01T14:00:00Z".to_string(),
            command: "LOAD".to_string(),
            snapshot: Some("snapshot1".to_string()),
            flags: vec![],
        },
    ];

    let filtered = filter_by_snapshot(entries, "snapshot1");
    assert_eq!(filtered.len(), 2);
    assert_eq!(filtered[0].command, "SAVE");
    assert_eq!(filtered[1].command, "LOAD");
}

#[test]
fn test_filter_by_snapshot_no_matches() {
    let entries = vec![HistoryEntry {
        timestamp: "2026-01-01T12:00:00Z".to_string(),
        command: "SAVE".to_string(),
        snapshot: Some("snapshot1".to_string()),
        flags: vec![],
    }];

    let filtered = filter_by_snapshot(entries, "nonexistent");
    assert!(filtered.is_empty());
}

#[test]
fn test_filter_by_snapshot_excludes_none() {
    let entries = vec![HistoryEntry {
        timestamp: "2026-01-01T12:00:00Z".to_string(),
        command: "LIST".to_string(),
        snapshot: None,
        flags: vec![],
    }];

    let filtered = filter_by_snapshot(entries, "snapshot1");
    assert!(filtered.is_empty());
}

#[test]
fn test_take_last_all_entries() {
    let entries = vec![
        HistoryEntry::new("save", Some("s1"), vec![]),
        HistoryEntry::new("save", Some("s2"), vec![]),
        HistoryEntry::new("save", Some("s3"), vec![]),
    ];

    let result = take_last(entries.clone(), 5);
    assert_eq!(result.len(), 3);
}

#[test]
fn test_take_last_subset() {
    let entries = vec![
        HistoryEntry::new("save", Some("s1"), vec![]),
        HistoryEntry::new("save", Some("s2"), vec![]),
        HistoryEntry::new("save", Some("s3"), vec![]),
        HistoryEntry::new("save", Some("s4"), vec![]),
    ];

    let result = take_last(entries, 2);
    assert_eq!(result.len(), 2);
    assert_eq!(result[0].snapshot, Some("s3".to_string()));
    assert_eq!(result[1].snapshot, Some("s4".to_string()));
}

#[test]
fn test_take_last_empty() {
    let entries: Vec<HistoryEntry> = vec![];
    let result = take_last(entries, 5);
    assert!(result.is_empty());
}

#[test]
fn display_fills_the_columns() {
    let entry = HistoryEntry {
        timestamp: "T".to_string(),
        command: "SAVE".to_string(),
        snapshot: Some("snap".to_string()),
        flags: vec!["--yes".to_string(), "--verbose".to_string()],
    };
    let expected = format!("{} {:8} {:<20} {}", "T", "SAVE", "snap", "--yes --verbose");
    assert_eq!(entry.display(), expected);
    let entry = HistoryEntry {
        timestamp: "T".to_string(),
        command: "A-VERY-LONG-COMMAND".to_string(),
        snapshot: None,
        flags: vec![],
    };
    let expected = format!("{} {:8} {:<20}", "T", "A-VERY-LONG-COMMAND", "");
    assert_eq!(entry.display(), expected);
}

#[test]
fn lines_are_split_at_any_white_space() {
    let entry = HistoryEntry::from_line("  t1 \t RM\u{200b}old   --yes\n--x ").unwrap();
    assert_eq!(entry.timestamp, "t1");
    assert_eq!(entry.command, "RM\u{200b}old");
    assert_eq!(entry.snapshot, None);
    assert_eq!(entry.flags, vec!["--yes", "--x"]);
    let entry = HistoryEntry::from_line("t1 RM\u{2003}old -x --y").unwrap();
    assert_eq!(entry.command, "RM");
    assert_eq!(entry.snapshot, Some("old".to_string()));
    assert_eq!(entry.flags, vec!["-x", "--y"]);
    assert!(HistoryEntry::from_line("").is_none());
    assert!(HistoryEntry::from_line("   ").is_none());
}

#[test]
fn commands_are_written_in_capitals() {
    let entry = HistoryEntry::stamped("now".to_string(), "stra\u{df}e", None, vec![]);
    assert_eq!(entry.command, "STRASSE");
    assert_eq!(entry.timestamp, "now");
}

#[test]
fn a_log_is_read_line_by_line() {
    let lines = vec![
        "2026-01-01T12:00:00Z SAVE a".to_string(),
        "garbage".to_string(),
        "".to_string(),
        "2026-01-01T12:00:01Z LOAD b --verbose".to_string(),
    ];
    let entries = read_history(&lines);
    assert_eq!(entries.len(), 2);
    assert_eq!(entries[0].command, "SAVE");
    assert_eq!(entries[1].command, "LOAD");
    assert_eq!(entries[1].to_line(), lines[3]);
    assert!(take_last(entries, 0).is_empty());
}

#[test]
fn test_read_history_empty() {
    let entries = read_history(&vec![]);
    assert!(entries.is_empty());
}

#[test]
fn test_read_history_with_entries() {
    let entry1 = HistoryEntry::new("save", Some("snapshot1"), vec![]);
    let entry2 = HistoryEntry::new("load", Some("snapshot2"), vec![]);

    let lines = vec![entry1.to_line(), entry2.to_line()];

    let entries = read_history(&lines);
    assert_eq!(entries.len(), 2);
    assert_eq!(entries[0].command, "SAVE");
    assert_eq!(entries[1].command, "LOAD");
    assert_eq!(entries[0].timestamp, entry1.timestamp);
    assert_eq!(entries[1].snapshot, Some("snapshot2".to_string()));
}

#[test]
fn a_written_line_reads_back() {
    let entries = vec![
        HistoryEntry {
            timestamp: "2026-01-01T12:00:00+00:00".to_string(),
            command: "SAVE".to_string(),
            snapshot: Some("v1".to_string()),
            flags: vec!["--yes".to_string(), "--directories=a,b".to_string(), "odd".to_string()],
        },
        HistoryEntry {
            timestamp: "t".to_string(),
            command: "PRUNE".to_string(),
            snapshot: None,
            flags: vec!["--verbose".to_string()],
        },
        HistoryEntry {
            timestamp: "t".to_string(),
            command: "LIST".to_string(),
            snapshot: None,
            flags: vec![],
        },
        HistoryEntry {
            timestamp: "t".to_string(),
            command: "RM".to_string(),
            snapshot: Some("-single-dash".to_string()),
            flags: vec![],
        },
    ];
    for entry in entries {
        let read = HistoryEntry::from_line(&entry.to_line()).unwrap();
        assert_eq!(read.timestamp, entry.timestamp);
        assert_eq!(read.command, entry.command);
        assert_eq!(read.snapshot, entry.snapshot);
        assert_eq!(read.flags, entry.flags);
    }
    let unreadable = HistoryEntry {
        timestamp: "t".to_string(),
        command: "SAVE".to_string(),
        snapshot: Some("--looks-like-a-flag".to_string()),
        flags: vec![],
    };
    let read = HistoryEntry::from_line(&unreadable.to_line()).unwrap();
    assert_eq!(read.snapshot, None);
    assert_eq!(read.flags, vec!["--looks-like-a-flag"]);
}
