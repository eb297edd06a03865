use klogz::text::{chars_of, contains, split_lines, trim};

#[test]
fn trim_matches_std() {
    for s in ["", "  ", " a ", "\t\nabc\r\n", "\u{3000}x y\u{2029}", "\u{85}z\u{a0}", "no-space", " \u{200b} "] {
        assert_eq!(trim(s), s.trim(), "{s:?}");
    }
}

#[test]
fn lines_match_std() {
    for s in ["", "a", "a\n", "a\nb", "a\r\nb\r\n", "a\r", "\n\n", "x\ry\n", "\r\n", "one\ntwo\nthree"] {
        let got: Vec<String> = split_lines(s);
        let want: Vec<String> = s.lines().map(|l| l.to_string()).collect();
        assert_eq!(got, want, "{s:?}");
    }
}

#[test]
fn contains_substring() {
    let hay = chars_of("prod-cluster");
    assert!(contains(&hay, &chars_of("clus")));
    assert!(contains(&hay, &chars_of("")));
    assert!(contains(&hay, &chars_of("prod-cluster")));
    assert!(!contains(&hay, &chars_of("prod-cluster-x")));
    assert!(!contains(&hay, &chars_of("staging")));
}
