use klogz::commands::clean::{bytes_eq, confirms_deletion, expiry_cutoff, prune_order, select_expired};
use klogz::util::CaptureEntry;

fn entry(path: &str, is_file: bool, mtime: i128) -> CaptureEntry {
    let name = path.rsplit('/').next().unwrap();
    CaptureEntry { path: path.as_bytes().to_vec(), file_name: name.as_bytes().to_vec(), is_file, mtime }
}

const DAY: i128 = 86_400_000_000_000;

#[test]
fn cutoff_is_days_before_now() {
    assert_eq!(expiry_cutoff(100 * DAY, 14), 86 * DAY);
    assert_eq!(expiry_cutoff(5, 0), 5);
    assert_eq!(expiry_cutoff(0, 1), -DAY);
}

#[test]
fn selects_only_old_captures_in_walk_order() {
    let now = 100 * DAY;
    let cutoff = expiry_cutoff(now, 14);
    let entries = vec![
        entry("/r/a/old1.log", true, 10 * DAY),
        entry("/r/a/new.log", true, 95 * DAY),
        entry("/r/a/old.txt", true, 1),
        entry("/r/b/old2.log", true, 86 * DAY - 1),
        entry("/r/b/edge.log", true, 86 * DAY),
        entry("/r/b/oldlink.log", false, 1),
    ];
    assert_eq!(select_expired(&entries, cutoff), vec![b"/r/a/old1.log".to_vec(), b"/r/b/old2.log".to_vec()]);
    assert!(select_expired(&Vec::new(), cutoff).is_empty());
}

#[test]
fn confirmation_answers() {
    for yes in ["y", "Y", "yes", " yes\n", "y\r\n", "\tY "] {
        assert!(confirms_deletion(yes), "{yes:?}");
    }
    for no in ["", "\n", "n", "N", "YES", "Yes", "ye", "yes please", "y y"] {
        assert!(!confirms_deletion(no), "{no:?}");
    }
}

#[test]
fn prune_deepest_first_without_root() {
    let dirs: Vec<Vec<u8>> = ["/r", "/r/2025-01-01", "/r/2025-01-01/sub", "/r/2025-01-02", "/r/2025-01-01/sub/deeper"]
        .iter()
        .map(|s| s.as_bytes().to_vec())
        .collect();
    let got: Vec<String> =
        prune_order(&dirs, b"/r").into_iter().map(|p| String::from_utf8(p).unwrap()).collect();
    assert_eq!(got, vec!["/r/2025-01-01/sub/deeper", "/r/2025-01-01/sub", "/r/2025-01-01", "/r/2025-01-02"]);
}

#[test]
fn prune_only_root() {
    assert!(prune_order(&vec![b"logs".to_vec()], b"logs").is_empty());
}

#[test]
fn byte_equality() {
    assert!(bytes_eq(b"abc", b"abc"));
    assert!(!bytes_eq(b"abc", b"abd"));
    assert!(!bytes_eq(b"abc", b"ab"));
}

use klogz::commands::clean::{clean_start, clean_step, CleanAction, CleanEvent, CleanState};

fn scanned(entries: Vec<CaptureEntry>, now: i128) -> CleanEvent {
    CleanEvent::Scanned { entries, now, root: b"/r".to_vec() }
}

#[test]
fn clean_run_with_confirmation() {
    let (st, act) = clean_start(14, false);
    assert!(matches!(act, CleanAction::Scan));
    let entries = vec![entry("/r/a/old.log", true, 1), entry("/r/a/new.log", true, 100 * DAY)];
    let (st, act) = clean_step(st, scanned(entries, 100 * DAY));
    assert!(matches!(act, CleanAction::Report { found: 1, days: 14 }));
    let (st, act) = clean_step(st, CleanEvent::Reported);
    assert!(matches!(act, CleanAction::Ask));
    let (st, act) = clean_step(st, CleanEvent::Answered { line: "yes\n".to_string() });
    match act {
        CleanAction::Remove { victims } => assert_eq!(victims, vec![b"/r/a/old.log".to_vec()]),
        _ => panic!("expected removal"),
    }
    let dirs = vec![b"/r".to_vec(), b"/r/a".to_vec()];
    let (st, act) = clean_step(st, CleanEvent::Removed { dirs });
    assert!(matches!(st, CleanState::Done));
    match act {
        CleanAction::Prune { dirs } => assert_eq!(dirs, vec![b"/r/a".to_vec()]),
        _ => panic!("expected pruning"),
    }
}

#[test]
fn clean_run_refused() {
    let (st, _) = clean_start(14, false);
    let (st, _) = clean_step(st, scanned(vec![entry("/r/a/old.log", true, 1)], 100 * DAY));
    let (st, _) = clean_step(st, CleanEvent::Reported);
    let (st, act) = clean_step(st, CleanEvent::Answered { line: "n\n".to_string() });
    assert!(matches!(st, CleanState::Done));
    assert!(matches!(act, CleanAction::Finish));
}

#[test]
fn clean_run_with_yes_skips_prompt() {
    let (st, _) = clean_start(7, true);
    let (st, _) = clean_step(st, scanned(vec![entry("/r/a/old.log", true, 1)], 100 * DAY));
    let (_, act) = clean_step(st, CleanEvent::Reported);
    assert!(matches!(act, CleanAction::Remove { .. }));
}

#[test]
fn clean_run_nothing_old() {
    let (st, _) = clean_start(14, false);
    let (st, act) = clean_step(st, scanned(vec![entry("/r/a/new.log", true, 99 * DAY)], 100 * DAY));
    assert!(matches!(act, CleanAction::Report { found: 0, days: 14 }));
    let (_, act) = clean_step(st, CleanEvent::Reported);
    assert!(matches!(act, CleanAction::Finish));
}

#[test]
fn clean_run_missing_root() {
    let (st, _) = clean_start(14, false);
    let (st, act) = clean_step(st, CleanEvent::RootMissing);
    assert!(matches!(st, CleanState::Done));
    assert!(matches!(act, CleanAction::NoCaptures));
}

#[test]
fn expired_captures_are_a_tail_of_the_listing() {
    let now = 100 * DAY;
    let cutoff = expiry_cutoff(now, 14);
    let mk = || {
        vec![
            entry("/r/a/1.log", true, 90 * DAY),
            entry("/r/a/2.log", true, 3 * DAY),
            entry("/r/b/3.log", true, 99 * DAY),
            entry("/r/b/4.log", true, 50 * DAY),
            entry("/r/b/5.txt", true, 1),
        ]
    };
    let listing = klogz::util::all_captures(mk());
    let expired = select_expired(&mk(), cutoff);
    assert_eq!(listing.len(), 4);
    let tail = &listing[listing.len() - expired.len()..];
    let mut sorted_expired = expired.clone();
    sorted_expired.sort();
    let mut sorted_tail = tail.to_vec();
    sorted_tail.sort();
    assert_eq!(sorted_tail, sorted_expired);
    assert_eq!(listing[0], b"/r/b/3.log".to_vec());
}
