use chrono::{NaiveDate, Timelike, Datelike};
use klogz::paths::{component_count, join, log_extension};
use klogz::stamp::{format_day, format_time, LocalStamp};
use klogz::util::{all_captures, capture_path_at, is_capture_entry, new_capture_path, sanitize_label, CaptureEntry};

fn stamp(y: i32, mo: u32, d: u32, h: u32, mi: u32, s: u32, ns: u32) -> LocalStamp {
    LocalStamp { year: y, month: mo, day: d, hour: h, minute: mi, second: s, nanosecond: ns }
}

fn entry(path: &str, is_file: bool, mtime: i128) -> CaptureEntry {
    let name = path.rsplit('/').next().unwrap();
    CaptureEntry {
        path: path.as_bytes().to_vec(),
        file_name: name.as_bytes().to_vec(),
        is_file,
        mtime,
    }
}

#[test]
fn sanitize_replaces_spaces_and_strips() {
    assert_eq!(sanitize_label("auth crash"), "auth-crash");
    assert_eq!(sanitize_label("payment-errors"), "payment-errors");
    assert_eq!(sanitize_label("my_label!@#"), "my_label");
    assert_eq!(sanitize_label("a/b\\c"), "abc");
    assert_eq!(sanitize_label("héllo wörld"), "hllo-wrld");
    assert_eq!(sanitize_label("  "), "--");
}

#[test]
fn sanitize_empty_becomes_capture() {
    assert_eq!(sanitize_label(""), "capture");
    assert_eq!(sanitize_label("!!!"), "capture");
    assert_eq!(sanitize_label("ünïcödé"), "ncd");
    assert_eq!(sanitize_label("日本"), "capture");
}

#[test]
fn sanitize_is_idempotent() {
    for s in ["auth crash", "", "x y z!", "a--b__c", "日本 語", "Tab\there"] {
        let once = sanitize_label(s);
        assert_eq!(sanitize_label(&once), once);
        assert!(!once.is_empty());
        assert!(once.chars().all(|c| c.is_ascii_alphanumeric() || c == '-' || c == '_'));
    }
}

#[test]
fn capture_path_layout() {
    let p = capture_path_at(b"/home/me/logs", &stamp(2025, 1, 2, 3, 4, 5, 0), "auth-crash");
    assert_eq!(p.dir, b"/home/me/logs/2025-01-02".to_vec());
    assert_eq!(p.file, b"/home/me/logs/2025-01-02/03-04-05_auth-crash.log".to_vec());
}

#[test]
fn capture_path_root_with_trailing_slash_and_empty_root() {
    let p = capture_path_at(b"logs/", &stamp(1999, 12, 31, 23, 59, 58, 0), "x");
    assert_eq!(p.file, b"logs/1999-12-31/23-59-58_x.log".to_vec());
    let q = capture_path_at(b"", &stamp(1999, 12, 31, 23, 59, 58, 0), "x");
    assert_eq!(q.dir, b"1999-12-31".to_vec());
    assert_eq!(q.file, b"1999-12-31/23-59-58_x.log".to_vec());
}

#[test]
fn capture_path_utf8_label() {
    let p = capture_path_at(b"/r", &stamp(2024, 2, 29, 0, 0, 0, 0), "é");
    assert_eq!(p.file, "/r/2024-02-29/00-00-00_é.log".as_bytes().to_vec());
}

#[test]
fn day_and_time_match_chrono() {
    let cases = [
        (2025, 6, 7, 8, 9, 10, 0u32),
        (5, 1, 1, 0, 0, 0, 0),
        (999, 10, 20, 12, 30, 45, 0),
        (10000, 3, 4, 5, 6, 7, 0),
        (123456, 11, 30, 1, 2, 3, 0),
        (-1, 1, 1, 0, 0, 0, 0),
        (-12345, 7, 8, 9, 10, 11, 0),
        (2016, 12, 31, 23, 59, 59, 1_500_000_000),
    ];
    for (y, mo, d, h, mi, s, ns) in cases {
        let dt = NaiveDate::from_ymd_opt(y, mo, d).unwrap().and_hms_nano_opt(h, mi, s, ns).unwrap();
        let st = stamp(dt.year(), dt.month(), dt.day(), dt.hour(), dt.minute(), dt.second(), dt.nanosecond());
        let day = String::from_utf8(format_day(&st)).unwrap();
        let time = String::from_utf8(format_time(&st)).unwrap();
        assert_eq!(day, dt.format("%Y-%m-%d").to_string());
        assert_eq!(time, dt.format("%H-%M-%S").to_string());
    }
}

#[test]
fn leap_second_shows_sixty() {
    let st = stamp(2016, 12, 31, 23, 59, 59, 1_000_000_000);
    assert_eq!(format_time(&st), b"23-59-60".to_vec());
}

#[test]
fn year_formats() {
    assert_eq!(format_day(&stamp(7, 1, 9, 0, 0, 0, 0)), b"0007-01-09".to_vec());
    assert_eq!(format_day(&stamp(10000, 1, 9, 0, 0, 0, 0)), b"+10000-01-09".to_vec());
    assert_eq!(format_day(&stamp(-1, 1, 9, 0, 0, 0, 0)), b"-0001-01-09".to_vec());
    assert_eq!(format_day(&stamp(-54321, 1, 9, 0, 0, 0, 0)), b"-54321-01-09".to_vec());
}

#[test]
fn new_capture_path_uses_local_now() {
    let before = chrono::Local::now().format("%Y-%m-%d").to_string();
    let p = new_capture_path(b"/tmp/klogz-root", "cap");
    let after = chrono::Local::now().format("%Y-%m-%d").to_string();
    let dir = String::from_utf8(p.dir.clone()).unwrap();
    assert!(dir == format!("/tmp/klogz-root/{before}") || dir == format!("/tmp/klogz-root/{after}"));
    let file = String::from_utf8(p.file).unwrap();
    assert!(file.starts_with(&format!("{dir}/")));
    assert!(file.ends_with("_cap.log"));
    let name = &file[dir.len() + 1..];
    assert_eq!(name.len(), "HH-MM-SS_cap.log".len());
    assert_eq!(&name[2..3], "-");
    assert_eq!(&name[5..6], "-");
}

#[test]
fn new_capture_is_listed() {
    let p = capture_path_at(b"/r", &stamp(2025, 1, 2, 3, 4, 5, 0), "capture");
    let name = p.file[p.file.len() - "03-04-05_capture.log".len()..].to_vec();
    let e = CaptureEntry { path: p.file.clone(), file_name: name, is_file: true, mtime: 0 };
    assert!(is_capture_entry(&e));
}

#[test]
fn capture_extension_rules() {
    assert!(log_extension(b"a.log"));
    assert!(log_extension(b"..log"));
    assert!(log_extension(b"x.tar.log"));
    assert!(!log_extension(b".log"));
    assert!(!log_extension(b"log"));
    assert!(!log_extension(b"a.LOG"));
    assert!(!log_extension(b"a.log.gz"));
    assert!(!log_extension(b"alog"));
    for name in ["a.log", "..log", ".log", "log", "a.LOG", "b.logs", "x.y.log", ".hidden.log"] {
        let std_says = std::path::Path::new(name).extension().and_then(|e| e.to_str()) == Some("log");
        assert_eq!(log_extension(name.as_bytes()), std_says, "{name}");
    }
}

#[test]
fn capture_requires_regular_file() {
    assert!(is_capture_entry(&entry("/r/d/a.log", true, 0)));
    assert!(!is_capture_entry(&entry("/r/d/a.log", false, 0)));
    assert!(!is_capture_entry(&entry("/r/d/a.txt", true, 0)));
}

#[test]
fn all_captures_newest_first() {
    let entries = vec![
        entry("/r/2025-01-01/10-00-00_a.log", true, 100),
        entry("/r/2025-01-01/notes.txt", true, 900),
        entry("/r/2025-01-02/11-00-00_b.log", true, 300),
        entry("/r/2025-01-02/link.log", false, 999),
        entry("/r/2025-01-03/12-00-00_c.log", true, 200),
    ];
    let got = all_captures(entries);
    assert_eq!(
        got,
        vec![
            b"/r/2025-01-02/11-00-00_b.log".to_vec(),
            b"/r/2025-01-03/12-00-00_c.log".to_vec(),
            b"/r/2025-01-01/10-00-00_a.log".to_vec(),
        ]
    );
}

#[test]
fn all_captures_ties_keep_walk_order() {
    let entries = vec![
        entry("/r/x/1.log", true, 5),
        entry("/r/x/2.log", true, 7),
        entry("/r/x/3.log", true, 5),
        entry("/r/x/4.log", true, -3),
        entry("/r/x/5.log", true, 7),
    ];
    let got: Vec<String> = all_captures(entries).into_iter().map(|p| String::from_utf8(p).unwrap()).collect();
    assert_eq!(got, vec!["/r/x/2.log", "/r/x/5.log", "/r/x/1.log", "/r/x/3.log", "/r/x/4.log"]);
}

#[test]
fn all_captures_empty() {
    assert!(all_captures(Vec::new()).is_empty());
    assert!(all_captures(vec![entry("/r/a.txt", true, 1)]).is_empty());
}

#[test]
fn join_rules() {
    assert_eq!(join(b"/a", b"b"), b"/a/b".to_vec());
    assert_eq!(join(b"/a/", b"b"), b"/a/b".to_vec());
    assert_eq!(join(b"", b"b"), b"b".to_vec());
    assert_eq!(join(b"/a", b"/etc"), b"/etc".to_vec());
    assert_eq!(join(b"/a", b""), b"/a/".to_vec());
    for (base, comp) in [("/a", "b"), ("/a/", "b"), ("", "b"), ("/a", "/etc"), ("/a", ""), ("x", "y/z"), ("/", "logs")] {
        let std_join = std::path::Path::new(base).join(comp);
        assert_eq!(join(base.as_bytes(), comp.as_bytes()), std_join.to_str().unwrap().as_bytes().to_vec());
    }
}

#[test]
fn component_count_matches_std() {
    for p in [
        "", "/", "//", "a", "/a", "a/b", "/a/b/", "./a", ".", "a/./b", "a/../b", "./", "a//b", "/tmp/logs/2025-01-01",
        "..", "../x", ".x", "x/.", "x/./", "/./a", ".a/.b",
    ] {
        assert_eq!(component_count(p.as_bytes()), std::path::Path::new(p).components().count(), "{p:?}");
    }
}

#[test]
fn joining_a_name_adds_one_component() {
    for base in ["", "/", "/r", "/r/", "logs", "./x", ".", "a//b/"] {
        for name in ["a", "..", ".x", "2025-01-01"] {
            let joined = join(base.as_bytes(), name.as_bytes());
            assert_eq!(component_count(&joined), component_count(base.as_bytes()) + 1, "{base:?} {name:?}");
        }
    }
}
