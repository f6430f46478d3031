use pkglist::cache::{calculate_pkg_hash, is_stale, rebuild, CacheRecord, StoredEvent};
use pkglist::event::{EventTable, PackageEvent, Status};
use pkglist::installed::read_package_list;
use pkglist::parser::{parse_line, parse_log_entries};
use pkglist::reconcile::{reconcile, render_line};

fn names(list: &[&str]) -> Vec<String> {
    list.iter().map(|s| s.to_string()).collect()
}

fn timeline(log: &str, installed: &[&str]) -> Vec<String> {
    let events = parse_log_entries(log.as_bytes());
    reconcile(&events, &names(installed)).iter().map(render_line).collect()
}

#[test]
fn logged_install_uses_its_date() {
    let log = "[2024-01-01T10:00:00+0000] [ALPM] installed foo (1.0-1)\n";
    assert_eq!(timeline(log, &["foo"]), vec!["2024-01-01T10:00:00+0000 :: INS :: foo".to_string()]);
}

#[test]
fn unlogged_install_gets_sentinel() {
    assert_eq!(timeline("", &["bar"]), vec!["0000-00-00T00:00:00+0000 :: INS :: bar".to_string()]);
}

#[test]
fn removed_package_stays_in_timeline() {
    let log = "[2024-02-03T04:05:06+0000] [ALPM] installed baz (2.0-1)\n\
               [2024-03-01T12:00:00+0000] [ALPM] removed baz (2.0-1)\n";
    let lines = timeline(log, &["foo"]);
    assert!(lines.contains(&"2024-03-01T12:00:00+0000 :: REM :: baz".to_string()));
    assert!(lines.contains(&"0000-00-00T00:00:00+0000 :: INS :: foo".to_string()));
    assert_eq!(lines.len(), 2);
}

#[test]
fn history_wins_for_installed_package() {
    let log = "[2024-01-01T10:00:00+0000] [ALPM] installed foo (1.0-1)\n\
               [2024-05-01T10:00:00+0000] [ALPM] upgraded foo (1.0-1 -> 1.1-1)\n";
    assert_eq!(timeline(log, &["foo"]), vec!["2024-05-01T10:00:00+0000 :: UPG :: foo".to_string()]);
}

#[test]
fn timeline_is_sorted_by_timestamp() {
    let log = "[2024-06-01T00:00:00+0000] [ALPM] installed zed (1.0-1)\n\
               [2023-01-01T00:00:00+0000] [ALPM] installed alpha (1.0-1)\n\
               [2024-01-01T00:00:00+0000] [ALPM] upgraded mid (1.0-1 -> 2.0-1)\n";
    let lines = timeline(log, &["new", "zed", "alpha", "mid"]);
    assert_eq!(
        lines,
        vec![
            "0000-00-00T00:00:00+0000 :: INS :: new".to_string(),
            "2023-01-01T00:00:00+0000 :: INS :: alpha".to_string(),
            "2024-01-01T00:00:00+0000 :: UPG :: mid".to_string(),
            "2024-06-01T00:00:00+0000 :: INS :: zed".to_string(),
        ]
    );
    for w in lines.windows(2) {
        assert!(w[0][..24] <= w[1][..24]);
    }
}

#[test]
fn duplicate_installed_names_listed_once() {
    assert_eq!(timeline("", &["bar", "bar"]).len(), 1);
}

#[test]
fn later_line_wins() {
    let log = "[2024-03-01T12:00:00+0000] [ALPM] removed qux (2.0-1)\n\
               [2024-01-01T12:00:00+0000] [ALPM] installed qux (2.0-1)\n";
    let events = parse_log_entries(log.as_bytes());
    let ev = events.get("qux").unwrap();
    assert_eq!(ev.timestamp, "2024-01-01T12:00:00+0000");
    assert_eq!(ev.status, Status::Installed);
}

#[test]
fn unterminated_last_line_is_not_read() {
    let log = "[2024-01-01T10:00:00+0000] [ALPM] installed foo (1.0-1)";
    assert!(parse_log_entries(log.as_bytes()).records().is_empty());
}

#[test]
fn short_lines_are_skipped() {
    let line = "[2024-01-01T10:00] [ALPM] installed foo (1.0)";
    assert!(line.len() < 50);
    assert!(parse_line(line.as_bytes()).is_none());
}

#[test]
fn unrelated_lines_are_skipped() {
    let log = "[2024-01-01T10:00:00+0000] [PACMAN] Running 'pacman -Syu' now\n\
               [2024-01-01T10:00:00+0000] [ALPM] reinstalled foo (1.0-1 stays)\n\
               [2024-01-01T10:00:00+0000] [ALPM] installed  (1.0-1 no name here)\n";
    assert!(parse_log_entries(log.as_bytes()).records().is_empty());
}

#[test]
fn invalid_utf8_line_is_skipped() {
    let mut log = b"[2024-01-01T10:00:00+0000] [ALPM] installed foo (1.0-1) ".to_vec();
    log.push(0xff);
    log.push(b'\n');
    log.extend_from_slice(b"[2024-01-02T10:00:00+0000] [ALPM] installed bar (1.0-1)\n");
    let events = parse_log_entries(&log);
    assert!(!events.contains("foo"));
    assert!(events.contains("bar"));
}

#[test]
fn name_ends_at_parenthesis_or_space() {
    let (name, ev) =
        parse_line(b"[2024-01-01T10:00:00+0000] [ALPM] installed lib32-glibc(2.39-1) extra").unwrap();
    assert_eq!(name, "lib32-glibc");
    assert_eq!(ev.timestamp, "2024-01-01T10:00:00+0000");
    assert_eq!(ev.status, Status::Installed);
    let (name, _) =
        parse_line(b"[2024-01-01T10:00:00+0000] [ALPM] removed caf\xc3\xa9\tpkg (1.0-1) trailing").unwrap();
    assert_eq!(name, "caf\u{e9}");
    let (name, _) =
        parse_line("[2024-01-01T10:00:00+0000] [ALPM] installed foo\u{a0}bar (1.0-1) x".as_bytes()).unwrap();
    assert_eq!(name, "foo");
    let (name, _) =
        parse_line("[2024-01-01T10:00:00+0000] [ALPM] installed f\u{e9}\u{3000}bar (1.0-1) x".as_bytes()).unwrap();
    assert_eq!(name, "f\u{e9}");
}

#[test]
fn record_may_follow_other_text() {
    let (name, ev) =
        parse_line(b"junk [x] [2024-01-01T10:00:00+0000] [ALPM] upgraded vim (9.0-1 -> 9.1-1)").unwrap();
    assert_eq!(name, "vim");
    assert_eq!(ev.status, Status::Upgraded);
}

#[test]
fn fingerprint_is_repeatable_and_order_sensitive() {
    let a = names(&["foo", "bar"]);
    let b = names(&["bar", "foo"]);
    assert_eq!(calculate_pkg_hash(&a), calculate_pkg_hash(&a.clone()));
    assert_ne!(calculate_pkg_hash(&a), calculate_pkg_hash(&b));
    assert_ne!(calculate_pkg_hash(&a), calculate_pkg_hash(&names(&["foo"])));
}

#[test]
fn unchanged_state_is_a_hit() {
    let log = b"[2024-01-01T10:00:00+0000] [ALPM] installed foo (1.0-1)\n";
    let fp = calculate_pkg_hash(&names(&["foo"]));
    let cached = Some(rebuild(fp, log.len() as u64, log));
    assert!(!is_stale(&cached, fp, log.len() as u64));
}

#[test]
fn changed_log_length_reparses_once() {
    let log = b"[2024-01-01T10:00:00+0000] [ALPM] installed foo (1.0-1)\n";
    let fp = calculate_pkg_hash(&names(&["foo"]));
    let cached = Some(rebuild(fp, 3, b""));
    assert!(is_stale(&cached, fp, log.len() as u64));
    let fresh = Some(rebuild(fp, log.len() as u64, log));
    assert!(!is_stale(&fresh, fp, log.len() as u64));
    assert!(fresh.unwrap().events.contains("foo"));
}

#[test]
fn missing_or_foreign_cache_is_stale() {
    assert!(is_stale(&None, 1, 2));
    let cached = Some(rebuild(1, 2, b""));
    assert!(is_stale(&cached, 9, 2));
    assert!(!is_stale(&cached, 1, 2));
}

#[test]
fn stored_form_round_trips() {
    let mut events = EventTable::new();
    events.insert("foo".to_string(), PackageEvent::new("2024-01-01T10:00:00+0000".to_string(), Status::Upgraded));
    events.insert("baz".to_string(), PackageEvent::new("2024-03-01T12:00:00+0000".to_string(), Status::Removed));
    events.insert("odd".to_string(), PackageEvent::new("2024-03-02T12:00:00+0000".to_string(), Status::Unknown));
    let record = CacheRecord { fingerprint: 42, log_len: 1234, events };
    let stored = record.to_stored();
    assert_eq!(stored.len(), 3);
    let back = CacheRecord::from_stored(42, 1234, &stored);
    assert_eq!(back.fingerprint, 42);
    assert_eq!(back.log_len, 1234);
    assert_eq!(back.events.records().len(), 3);
    for name in ["foo", "baz", "odd"] {
        let a = record.events.get(name).unwrap();
        let b = back.events.get(name).unwrap();
        assert_eq!(a.timestamp, b.timestamp);
        assert_eq!(a.status, b.status);
    }
}

#[test]
fn unknown_stored_tag_reads_as_unknown() {
    let stored = vec![StoredEvent {
        name: "odd".to_string(),
        date: "2024-01-01T00:00:00+0000".to_string(),
        status: "XYZ".to_string(),
    }];
    let record = CacheRecord::from_stored(0, 0, &stored);
    assert_eq!(record.events.get("odd").unwrap().status, Status::Unknown);
    let lines: Vec<String> = reconcile(&record.events, &[]).iter().map(render_line).collect();
    assert_eq!(lines, vec!["2024-01-01T00:00:00+0000 :: ERR :: odd".to_string()]);
}

#[test]
fn status_tags() {
    for (st, tag) in [
        (Status::Installed, "INS"),
        (Status::Upgraded, "UPG"),
        (Status::Removed, "REM"),
        (Status::Unknown, "ERR"),
    ] {
        assert_eq!(st.tag(), tag);
        assert_eq!(Status::from_tag(&tag.to_string()), st);
    }
}

#[test]
fn table_copy_keeps_contents() {
    let mut events = EventTable::new();
    events.insert("a".to_string(), PackageEvent::new("1".to_string(), Status::Installed));
    events.insert("a".to_string(), PackageEvent::new("2".to_string(), Status::Removed));
    let copy = events.copy();
    assert_eq!(copy.records().len(), 1);
    assert_eq!(copy.get("a").unwrap().timestamp, "2");
    assert_eq!(copy.get("a").unwrap().status, Status::Removed);
}

#[test]
fn package_list_is_trimmed_without_blanks() {
    let out = b"foo\n  bar \r\n\n\t\nbaz";
    assert_eq!(read_package_list(out), names(&["foo", "bar", "baz"]));
    assert!(read_package_list(b"").is_empty());
    assert!(read_package_list(b"\n \n").is_empty());
}

#[test]
fn package_list_keeps_order_and_replaces_bad_bytes() {
    let out = b"zed\nalpha\nb\xffd\n";
    assert_eq!(read_package_list(out), names(&["zed", "alpha", "b\u{fffd}d"]));
}
