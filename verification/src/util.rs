//! Capture naming and listing.

use vstd::prelude::*;
use vstd::utf8::encode_utf8;
use crate::text::{push_char, ascii_alnum, is_ascii_alnum};
use crate::paths::{spec_join, join, extend_bytes, copy_bytes, byte_strings, has_log_extension, log_extension};
use crate::sorting::{is_stable_desc_order, stable_desc, stable_desc_order};
use crate::stamp::{LocalStamp, ClockReading, local_now, day_text, time_text, format_day, format_time};

verus! {

/// A character that may stand in a sanitized label: `[A-Za-z0-9_-]`.
pub open spec fn is_label_char(c: char) -> bool {
    is_ascii_alnum(c) || c == '-' || c == '_'
}

/// What one input character becomes in a label: a space turns into a dash,
/// an allowed character stays, anything else is dropped.
pub open spec fn label_piece(c: char) -> Seq<char> {
    if c == ' ' {
        seq!['-']
    } else if is_label_char(c) {
        seq![c]
    } else {
        Seq::empty()
    }
}

/// The label characters kept from `s`, before the empty case is handled.
pub open spec fn cleaned_label(s: Seq<char>) -> Seq<char>
    decreases s.len(),
{
    if s.len() == 0 {
        Seq::empty()
    } else {
        cleaned_label(s.drop_last()) + label_piece(s.last())
    }
}

/// The default label used when nothing usable is left.
pub open spec fn default_label() -> Seq<char> {
    seq!['c', 'a', 'p', 't', 'u', 'r', 'e']
}

/// The sanitized form of a label.
pub open spec fn spec_sanitize_label(s: Seq<char>) -> Seq<char> {
    if cleaned_label(s).len() == 0 {
        default_label()
    } else {
        cleaned_label(s)
    }
}

/// Every character kept by `cleaned_label` is a label character.
proof fn lemma_cleaned_chars(s: Seq<char>)
    ensures
        forall|i: int| 0 <= i < cleaned_label(s).len() ==> is_label_char(#[trigger] cleaned_label(s)[i]),
    decreases s.len(),
{
    if s.len() > 0 {
        lemma_cleaned_chars(s.drop_last());
        let a = cleaned_label(s.drop_last());
        let b = label_piece(s.last());
        assert forall|i: int| 0 <= i < (a + b).len() implies is_label_char(#[trigger] (a + b)[i]) by {
            if i < a.len() {
                assert((a + b)[i] == a[i]);
            } else {
                assert((a + b)[i] == b[i - a.len()]);
            }
        }
    }
}

/// A string made of label characters is kept as it is.
proof fn lemma_cleaned_fixed(s: Seq<char>)
    requires
        forall|i: int| 0 <= i < s.len() ==> is_label_char(#[trigger] s[i]),
    ensures
        cleaned_label(s) == s,
    decreases s.len(),
{
    if s.len() > 0 {
        assert(is_label_char(s[s.len() - 1]));
        assert forall|i: int| 0 <= i < s.drop_last().len() implies is_label_char(
            #[trigger] s.drop_last()[i],
        ) by {
            assert(s.drop_last()[i] == s[i]);
        }
        lemma_cleaned_fixed(s.drop_last());
        assert(s.drop_last() + seq![s.last()] =~= s);
    }
}

/// The sanitized label is never empty and holds only `[A-Za-z0-9_-]`.
pub proof fn lemma_sanitized_is_label(s: Seq<char>)
    ensures
        spec_sanitize_label(s).len() > 0,
        forall|i: int| 0 <= i < spec_sanitize_label(s).len() ==> is_label_char(
            #[trigger] spec_sanitize_label(s)[i],
        ),
{
    lemma_cleaned_chars(s);
    assert forall|i: int| 0 <= i < default_label().len() implies is_label_char(
        #[trigger] default_label()[i],
    ) by {}
}

/// Sanitizing is idempotent: a sanitized label sanitizes to itself.
pub proof fn lemma_sanitize_idempotent(s: Seq<char>)
    ensures
        spec_sanitize_label(spec_sanitize_label(s)) == spec_sanitize_label(s),
{
    lemma_sanitized_is_label(s);
    lemma_cleaned_fixed(spec_sanitize_label(s));
}

/// A non-empty label made only of `[A-Za-z0-9_-]` is left unchanged.
pub proof fn lemma_clean_label_unchanged(s: Seq<char>)
    requires
        s.len() > 0,
        forall|i: int| 0 <= i < s.len() ==> is_label_char(#[trigger] s[i]),
    ensures
        spec_sanitize_label(s) == s,
{
    lemma_cleaned_fixed(s);
}

/// Letters, digits, dashes and underscores all survive sanitizing: a
/// non-empty label made only of `A`-`Z`, `a`-`z`, `0`-`9`, `-` and `_`
/// sanitizes to itself.
pub proof fn lemma_sanitize_keeps_allowed(s: Seq<char>)
    requires
        s.len() > 0,
        forall|i: int|
            0 <= i < s.len() ==> ('0' <= #[trigger] s[i] && s[i] <= '9') || ('A' <= s[i] && s[i] <= 'Z')
                || ('a' <= s[i] && s[i] <= 'z') || s[i] == '-' || s[i] == '_',
    ensures
        spec_sanitize_label(s) == s,
{
    assert forall|i: int| 0 <= i < s.len() implies is_label_char(#[trigger] s[i]) by {}
    lemma_cleaned_fixed(s);
}

/// Spaces become dashes, one for one: a label of `n > 0` spaces sanitizes
/// to `n` dashes.
pub proof fn lemma_sanitize_spaces(s: Seq<char>)
    requires
        s.len() > 0,
        forall|i: int| 0 <= i < s.len() ==> #[trigger] s[i] == ' ',
    ensures
        spec_sanitize_label(s) == Seq::new(s.len(), |i: int| '-'),
{
    lemma_cleaned_spaces(s);
}

proof fn lemma_cleaned_spaces(s: Seq<char>)
    requires
        forall|i: int| 0 <= i < s.len() ==> #[trigger] s[i] == ' ',
    ensures
        cleaned_label(s) == Seq::new(s.len(), |i: int| '-'),
    decreases s.len(),
{
    if s.len() > 0 {
        assert forall|i: int| 0 <= i < s.drop_last().len() implies #[trigger] s.drop_last()[i] == ' ' by {
            assert(s.drop_last()[i] == s[i]);
        }
        lemma_cleaned_spaces(s.drop_last());
        assert(s.last() == ' ');
        assert(cleaned_label(s) =~= Seq::new(s.len(), |i: int| '-'));
    }
}

/// Anything else is dropped: a label with no letter, digit, dash,
/// underscore or space at all sanitizes to `capture`.
pub proof fn lemma_sanitize_drops_others(s: Seq<char>)
    requires
        forall|i: int|
            0 <= i < s.len() ==> !(('0' <= #[trigger] s[i] && s[i] <= '9') || ('A' <= s[i] && s[i] <= 'Z')
                || ('a' <= s[i] && s[i] <= 'z') || s[i] == '-' || s[i] == '_' || s[i] == ' '),
    ensures
        spec_sanitize_label(s) == seq!['c', 'a', 'p', 't', 'u', 'r', 'e'],
{
    assert forall|i: int| 0 <= i < s.len() implies !is_label_char(#[trigger] s[i]) && s[i] != ' ' by {}
    lemma_cleaned_others(s);
}

proof fn lemma_cleaned_others(s: Seq<char>)
    requires
        forall|i: int| 0 <= i < s.len() ==> !is_label_char(#[trigger] s[i]) && s[i] != ' ',
    ensures
        cleaned_label(s).len() == 0,
    decreases s.len(),
{
    if s.len() > 0 {
        assert forall|i: int| 0 <= i < s.drop_last().len() implies !is_label_char(#[trigger] s.drop_last()[i])
            && s.drop_last()[i] != ' ' by {
            assert(s.drop_last()[i] == s[i]);
        }
        lemma_cleaned_others(s.drop_last());
        assert(!is_label_char(s[s.len() - 1]) && s[s.len() - 1] != ' ');
    }
}

/// Sanitize a label: spaces become dashes, anything outside `[A-Za-z0-9_-]`
/// is dropped, and an empty result becomes `capture`.
pub fn sanitize_label(label: &str) -> (res: String)
    ensures
        res@ == spec_sanitize_label(label@),
        res@.len() > 0,
        forall|i: int| 0 <= i < res@.len() ==> is_label_char(#[trigger] res@[i]),
{
    proof {
        lemma_sanitized_is_label(label@);
    }
    let mut out = String::new();
    let mut it = label.chars();
    let ghost s = label@;
    for c in iter: it
        invariant
            iter.seq() == s,
            out@ == cleaned_label(s.take(iter.index() as int)),
    {
        proof {
            assert(s.take(iter.index() + 1).drop_last() =~= s.take(iter.index() as int));
        }
        if c == ' ' {
            push_char(&mut out, '-');
        } else if ascii_alnum(c) || c == '-' || c == '_' {
            push_char(&mut out, c);
        }
        assert(out@ =~= cleaned_label(s.take(iter.index() + 1)));
    }
    assert(s.take(s.len() as int) =~= s);
    if out.as_str().is_empty() {
        let mut d = String::new();
        push_char(&mut d, 'c');
        push_char(&mut d, 'a');
        push_char(&mut d, 'p');
        push_char(&mut d, 't');
        push_char(&mut d, 'u');
        push_char(&mut d, 'r');
        push_char(&mut d, 'e');
        d
    } else {
        out
    }
}

/// Where a new capture goes: the date directory, and the file inside it.
#[derive(Debug)]
pub struct CapturePath {
    pub dir: Vec<u8>,
    pub file: Vec<u8>,
    /// The clock reading the path was built from, when it was built from
    /// the clock rather than from a given stamp.
    pub taken_at: Option<ClockReading>,
}

/// The suffix `.log`.
pub open spec fn log_suffix() -> Seq<u8> {
    seq![46u8, 108u8, 111u8, 103u8]
}

/// `<time>_<label>.log`, with the label in UTF-8.
pub open spec fn capture_file_name(stamp: LocalStamp, label: Seq<char>) -> Seq<u8> {
    time_text(stamp) + seq![95u8] + encode_utf8(label) + log_suffix()
}

/// The file name spells the stamp's own hour, minute and second, two
/// decimal digits each and dash-separated (a leap second shows as 60), then
/// `_`, the label in UTF-8 and `.log`.
pub proof fn lemma_capture_name_spells_time(stamp: LocalStamp, label: Seq<char>)
    requires
        stamp.wf(),
    ensures
        ({
            let sec = stamp.second + stamp.nanosecond / 1_000_000_000;
            capture_file_name(stamp, label) == seq![
                (48 + stamp.hour / 10) as u8,
                (48 + stamp.hour % 10) as u8,
                45u8,
                (48 + stamp.minute / 10) as u8,
                (48 + stamp.minute % 10) as u8,
                45u8,
                (48 + sec / 10) as u8,
                (48 + sec % 10) as u8,
                95u8,
            ] + encode_utf8(label) + seq![46u8, 108u8, 111u8, 103u8]
        }),
{
    let sec = stamp.second + stamp.nanosecond / 1_000_000_000;
    assert(capture_file_name(stamp, label) =~= seq![
        (48 + stamp.hour / 10) as u8,
        (48 + stamp.hour % 10) as u8,
        45u8,
        (48 + stamp.minute / 10) as u8,
        (48 + stamp.minute % 10) as u8,
        45u8,
        (48 + sec / 10) as u8,
        (48 + sec % 10) as u8,
        95u8,
    ] + encode_utf8(label) + seq![46u8, 108u8, 111u8, 103u8]);
}

/// `<root>/<date>`.
pub open spec fn capture_dir(root: Seq<u8>, stamp: LocalStamp) -> Seq<u8> {
    spec_join(root, day_text(stamp))
}

/// For years 0 through 9999 the date directory is `root` joined with the
/// stamp's own year (four digits), month and day (two digits each),
/// dash-separated.
pub proof fn lemma_capture_dir_spells_date(root: Seq<u8>, stamp: LocalStamp)
    requires
        stamp.wf(),
        0 <= stamp.year <= 9999,
    ensures
        capture_dir(root, stamp) == spec_join(
            root,
            seq![
                (48 + stamp.year / 1000) as u8,
                (48 + stamp.year / 100 % 10) as u8,
                (48 + stamp.year / 10 % 10) as u8,
                (48 + stamp.year % 10) as u8,
                45u8,
                (48 + stamp.month / 10) as u8,
                (48 + stamp.month % 10) as u8,
                45u8,
                (48 + stamp.day / 10) as u8,
                (48 + stamp.day % 10) as u8,
            ],
        ),
{
    let y = stamp.year as int;
    let n = y as nat;
    let four = seq![
        (48 + y / 1000) as u8,
        (48 + y / 100 % 10) as u8,
        (48 + y / 10 % 10) as u8,
        (48 + y % 10) as u8,
    ];
    let d = crate::stamp::decimal(n);
    if n < 10 {
        assert(d == seq![crate::stamp::digit(y)]);
    } else if n < 100 {
        assert(d == crate::stamp::decimal(n / 10).push(crate::stamp::digit(y % 10)));
        assert(d =~= seq![crate::stamp::digit(y / 10), crate::stamp::digit(y % 10)]);
    } else if n < 1000 {
        let a = n / 10;
        assert(a / 10 == n / 100);
        assert(crate::stamp::decimal(a / 10) == seq![crate::stamp::digit(y / 100)]);
        assert(crate::stamp::decimal(a) == crate::stamp::decimal(a / 10).push(
            crate::stamp::digit((a % 10) as int),
        ));
        assert(crate::stamp::decimal(n / 10) =~= seq![
            crate::stamp::digit(y / 100),
            crate::stamp::digit(y / 10 % 10),
        ]);
        assert(d =~= seq![
            crate::stamp::digit(y / 100),
            crate::stamp::digit(y / 10 % 10),
            crate::stamp::digit(y % 10),
        ]);
    } else {
        let b = n / 100;
        assert(b / 10 == n / 1000);
        assert((n / 10) / 10 == b);
        assert(crate::stamp::decimal(b / 10) == seq![crate::stamp::digit(y / 1000)]);
        assert(crate::stamp::decimal(b) == crate::stamp::decimal(b / 10).push(
            crate::stamp::digit((b % 10) as int),
        ));
        assert(crate::stamp::decimal(n / 10) == crate::stamp::decimal(b).push(
            crate::stamp::digit(((n / 10) % 10) as int),
        ));
        assert(crate::stamp::decimal(n / 100) =~= seq![
            crate::stamp::digit(y / 1000),
            crate::stamp::digit(y / 100 % 10),
        ]);
        assert(crate::stamp::decimal(n / 10) =~= seq![
            crate::stamp::digit(y / 1000),
            crate::stamp::digit(y / 100 % 10),
            crate::stamp::digit(y / 10 % 10),
        ]);
        assert(d =~= seq![
            crate::stamp::digit(y / 1000),
            crate::stamp::digit(y / 100 % 10),
            crate::stamp::digit(y / 10 % 10),
            crate::stamp::digit(y % 10),
        ]);
    }
    assert(crate::stamp::year_text(y) =~= four);
    assert(day_text(stamp) =~= four + seq![
        45u8,
        (48 + stamp.month / 10) as u8,
        (48 + stamp.month % 10) as u8,
        45u8,
        (48 + stamp.day / 10) as u8,
        (48 + stamp.day % 10) as u8,
    ]);
}

/// `<root>/<date>/<time>_<label>.log`.
pub open spec fn capture_file(root: Seq<u8>, stamp: LocalStamp, label: Seq<char>) -> Seq<u8> {
    spec_join(capture_dir(root, stamp), capture_file_name(stamp, label))
}

/// The capture path for `label` under `root` at the given local time.
pub fn capture_path_at(root: &[u8], stamp: &LocalStamp, label: &str) -> (res: CapturePath)
    requires
        stamp.wf(),
    ensures
        res.dir@ == capture_dir(root@, *stamp),
        res.file@ == capture_file(root@, *stamp, label@),
{
    let day = format_day(stamp);
    let dir = join(root, day.as_slice());
    let mut name = format_time(stamp);
    name.push(95u8);
    extend_bytes(&mut name, label.as_bytes());
    name.push(46u8);
    name.push(108u8);
    name.push(111u8);
    name.push(103u8);
    assert(name@ =~= capture_file_name(*stamp, label@));
    let file = join(dir.as_slice(), name.as_slice());
    CapturePath { dir, file, taken_at: None }
}

/// The destination of a new capture: `<root>/YYYY-MM-DD/HH-MM-SS_<label>.log`
/// at the current local time, which `taken_at` holds. The caller creates
/// the directory.
pub fn new_capture_path(root: &[u8], label: &str) -> (res: CapturePath)
    ensures
        res.taken_at is Some,
        res.taken_at->0.reading().wf(),
        res.dir@ == capture_dir(root@, res.taken_at->0.reading()),
        res.file@ == capture_file(root@, res.taken_at->0.reading(), label@),
{
    let now = local_now();
    let stamp = now.stamp();
    let p = capture_path_at(root, &stamp, label);
    CapturePath { dir: p.dir, file: p.file, taken_at: Some(now) }
}

/// A new capture is one that the capture listing picks up: its file name
/// has the `.log` extension, so as a regular file it counts as a capture.
pub proof fn lemma_new_capture_is_listed(stamp: LocalStamp, label: Seq<char>, mtime: i128)
    requires
        stamp.wf(),
    ensures
        has_log_extension(capture_file_name(stamp, label)),
        forall|e: CaptureEntry|
            e.is_file && #[trigger] e.file_name@ == capture_file_name(stamp, label) ==> is_capture(e),
{
    crate::stamp::lemma_time_text_shape(stamp);
    let n = capture_file_name(stamp, label);
    assert(n.len() >= 5);
    assert(n.subrange(n.len() - 4, n.len() as int) =~= log_suffix());
    assert(n[n.len() - 4] == 46u8);
}

/// A non-directory entry met while walking the capture directory.
#[derive(Debug)]
pub struct CaptureEntry {
    /// The entry's full path.
    pub path: Vec<u8>,
    /// The entry's file name (the last component of `path`).
    pub file_name: Vec<u8>,
    /// The entry is a regular file.
    pub is_file: bool,
    /// Modification time in nanoseconds since the Unix epoch (negative
    /// before it); 0 where it could not be read.
    pub mtime: i128,
}

/// The entry is a capture: a regular file with a `.log` extension.
pub open spec fn is_capture(e: CaptureEntry) -> bool {
    e.is_file && has_log_extension(e.file_name@)
}

/// Decides `is_capture`.
pub fn is_capture_entry(e: &CaptureEntry) -> (b: bool)
    ensures
        b == is_capture(*e),
{
    e.is_file && log_extension(e.file_name.as_slice())
}

/// The captures among `entries`, in walk order.
pub open spec fn captures_of(entries: Seq<CaptureEntry>) -> Seq<CaptureEntry>
    decreases entries.len(),
{
    if entries.len() == 0 {
        Seq::empty()
    } else if is_capture(entries.last()) {
        captures_of(entries.drop_last()).push(entries.last())
    } else {
        captures_of(entries.drop_last())
    }
}

/// The modification times of `entries`.
pub open spec fn mtimes(entries: Seq<CaptureEntry>) -> Seq<i128> {
    Seq::new(entries.len(), |i: int| entries[i].mtime)
}

/// The capture listing: the paths of the captures among `entries`, newest
/// first, equal times in walk order.
pub open spec fn capture_listing(entries: Seq<CaptureEntry>) -> Seq<Seq<u8>> {
    let caps = captures_of(entries);
    let order = stable_desc(mtimes(caps));
    Seq::new(order.len(), |t: int| caps[order[t] as int].path@)
}

proof fn lemma_captures_len(entries: Seq<CaptureEntry>)
    ensures
        captures_of(entries).len() <= entries.len(),
    decreases entries.len(),
{
    if entries.len() > 0 {
        lemma_captures_len(entries.drop_last());
    }
}

/// The capture listing holds every capture once, newest first: along it the
/// modification times never increase, and every capture among the walked
/// entries appears in it.
pub proof fn lemma_listing_newest_first(entries: Seq<CaptureEntry>)
    requires
        entries.len() <= usize::MAX,
    ensures
        capture_listing(entries).len() == captures_of(entries).len(),
        forall|a: int, b: int|
            0 <= a < b < captures_of(entries).len() ==> captures_of(entries)[#[trigger] stable_desc(
                mtimes(captures_of(entries)),
            )[a] as int].mtime >= captures_of(entries)[#[trigger] stable_desc(
                mtimes(captures_of(entries)),
            )[b] as int].mtime,
        forall|k: int|
            0 <= k < captures_of(entries).len() ==> capture_listing(entries).contains(
                #[trigger] captures_of(entries)[k].path@,
            ),
{
    let caps = captures_of(entries);
    lemma_captures_len(entries);
    let keys = mtimes(caps);
    crate::sorting::lemma_stable_desc_exists(keys);
    crate::sorting::lemma_order_is_newest_first(keys);
    let order = stable_desc(keys);
    let l = capture_listing(entries);
    assert forall|a: int, b: int| 0 <= a < b < caps.len() implies caps[#[trigger] order[a] as int].mtime
        >= caps[#[trigger] order[b] as int].mtime by {
        assert(keys[order[a] as int] >= keys[order[b] as int]);
    }
    assert forall|k: int| 0 <= k < caps.len() implies l.contains(#[trigger] caps[k].path@) by {
        assert(order.contains(k as usize));
        let t = choose|t: int| 0 <= t < order.len() && order[t] == k as usize;
        assert(l[t] == caps[order[t] as int].path@);
    }
}

/// All captures among the walked entries, newest first by modification
/// time; captures with equal times keep their walk order.
pub fn all_captures(entries: Vec<CaptureEntry>) -> (res: Vec<Vec<u8>>)
    ensures
        byte_strings(res@) == capture_listing(entries@),
        is_stable_desc_order(
            mtimes(captures_of(entries@)),
            stable_desc(mtimes(captures_of(entries@))),
        ),
{
    let ghost all = entries@;
    let mut caps: Vec<CaptureEntry> = Vec::new();
    let mut keys: Vec<i128> = Vec::new();
    for e in it: entries
        invariant
            it.seq() == all,
            caps@ == captures_of(all.take(it.index() as int)),
            keys@ == mtimes(caps@),
    {
        assert(all.take(it.index() + 1).drop_last() =~= all.take(it.index() as int));
        assert(all[it.index() as int] == e);
        if is_capture_entry(&e) {
            keys.push(e.mtime);
            caps.push(e);
        }
        assert(keys@ =~= mtimes(caps@));
    }
    assert(all.take(all.len() as int) =~= all);
    let order = stable_desc_order(&keys);
    let mut out: Vec<Vec<u8>> = Vec::new();
    let m = order.len();
    for t in 0..m
        invariant
            m == order@.len(),
            is_stable_desc_order(keys@, order@),
            keys@ == mtimes(caps@),
            out@.len() == t,
            forall|u: int| 0 <= u < t ==> #[trigger] out@[u]@ == caps@[order@[u] as int].path@,
    {
        let k = order[t];
        out.push(copy_bytes(caps[k].path.as_slice()));
    }
    assert(byte_strings(out@) =~= capture_listing(all));
    out
}

} // verus!
