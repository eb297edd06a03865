//! Deleting old captures and pruning the directories they leave empty.

use vstd::prelude::*;
use crate::paths::{
    copy_bytes, spec_component_count, component_count, byte_strings, is_plain_name, spec_join,
    has_log_extension,
    lemma_join_adds_component,
};
use crate::sorting::{is_stable_desc_order, stable_desc, stable_desc_order};
use crate::text::{trim, trimmed};
use crate::util::{CaptureEntry, is_capture, is_capture_entry, captures_of, mtimes};

verus! {

/// Nanoseconds in a day.
pub open spec fn day_nanos() -> int {
    86_400_000_000_000
}

/// The earliest instant a `SystemTime` can hold here, in nanoseconds since
/// the epoch.
pub open spec fn min_time() -> int {
    -9_223_372_036_854_775_808 * 1_000_000_000
}

/// `now - Duration::from_secs(days * 86_400)` can be computed: the seconds
/// fit in a `u64` and the difference in a `SystemTime`.
pub open spec fn cutoff_defined(now: i128, days: u64) -> bool {
    &&& days * 86_400 <= u64::MAX
    &&& now - days * day_nanos() >= min_time()
}

/// The cut-off instant: `days` days before `now`.
pub fn expiry_cutoff(now: i128, days: u64) -> (res: i128)
    requires
        cutoff_defined(now, days),
    ensures
        res == now - days * day_nanos(),
{
    let d = days as i128;
    assert(d * 86_400_000_000_000 <= 18_446_744_073_709_551_615 * 1_000_000_000) by (nonlinear_arith)
        requires
            d * 86_400 <= 18_446_744_073_709_551_615,
            d >= 0,
    ;
    now - d * 86_400_000_000_000
}

/// The paths of the captures among `entries` last modified before `cutoff`,
/// in walk order.
pub open spec fn expired_paths(entries: Seq<CaptureEntry>, cutoff: i128) -> Seq<Seq<u8>>
    decreases entries.len(),
{
    if entries.len() == 0 {
        Seq::empty()
    } else if is_capture(entries.last()) && entries.last().mtime < cutoff {
        expired_paths(entries.drop_last(), cutoff).push(entries.last().path@)
    } else {
        expired_paths(entries.drop_last(), cutoff)
    }
}

/// The captures to delete: those last modified before `cutoff`.
pub fn select_expired(entries: &Vec<CaptureEntry>, cutoff: i128) -> (res: Vec<Vec<u8>>)
    ensures
        byte_strings(res@) == expired_paths(entries@, cutoff),
{
    let n = entries.len();
    let mut out: Vec<Vec<u8>> = Vec::new();
    for i in 0..n
        invariant
            n == entries@.len(),
            byte_strings(out@) == expired_paths(entries@.take(i as int), cutoff),
    {
        assert(entries@.take(i + 1).drop_last() =~= entries@.take(i as int));
        let e = &entries[i];
        let ghost before = byte_strings(out@);
        if is_capture_entry(e) && e.mtime < cutoff {
            out.push(copy_bytes(e.path.as_slice()));
            assert(byte_strings(out@) =~= before.push(e.path@));
        }
        assert(byte_strings(out@) =~= expired_paths(entries@.take(i + 1), cutoff));
    }
    assert(entries@.take(n as int) =~= entries@);
    out
}

/// The answer to `Delete them? [y/N]` agrees: `y`, `Y` or `yes` once
/// surrounding whitespace is trimmed.
pub open spec fn spec_confirms(answer: Seq<char>) -> bool {
    let t = trimmed(answer);
    t == "y"@ || t == "Y"@ || t == "yes"@
}

/// Reads the answer to the deletion prompt.
pub fn confirms_deletion(answer: &str) -> (res: bool)
    ensures
        res == spec_confirms(answer@),
{
    let t = trim(answer);
    t == "y".to_owned() || t == "Y".to_owned() || t == "yes".to_owned()
}

/// The component counts of `dirs`, as sort keys.
pub open spec fn depths(dirs: Seq<Seq<u8>>) -> Seq<i128> {
    Seq::new(dirs.len(), |i: int| spec_component_count(dirs[i]) as i128)
}

/// `dirs` taken in the order `order`, leaving out those equal to `root`.
pub open spec fn ordered_without(dirs: Seq<Seq<u8>>, order: Seq<usize>, root: Seq<u8>) -> Seq<Seq<u8>>
    decreases order.len(),
{
    if order.len() == 0 {
        Seq::empty()
    } else if dirs[order.last() as int] == root {
        ordered_without(dirs, order.drop_last(), root)
    } else {
        ordered_without(dirs, order.drop_last(), root).push(dirs[order.last() as int])
    }
}

/// The directories to try removing, in order: deepest first (most path
/// components), equal depths in walk order, the root itself left out.
pub open spec fn spec_prune_order(dirs: Seq<Seq<u8>>, root: Seq<u8>) -> Seq<Seq<u8>> {
    ordered_without(dirs, stable_desc(depths(dirs)), root)
}

/// The order in which to try removing directories: deepest first (most
/// path components), equal depths in walk order, the root itself left out.
pub fn prune_order(dirs: &Vec<Vec<u8>>, root: &[u8]) -> (res: Vec<Vec<u8>>)
    ensures
        byte_strings(res@) == spec_prune_order(byte_strings(dirs@), root@),
        is_stable_desc_order(depths(byte_strings(dirs@)), stable_desc(depths(byte_strings(dirs@)))),
{
    let n = dirs.len();
    let ghost ds = byte_strings(dirs@);
    let mut keys: Vec<i128> = Vec::new();
    for i in 0..n
        invariant
            n == dirs@.len(),
            ds == byte_strings(dirs@),
            keys@ == depths(ds).take(i as int),
    {
        let c = component_count(dirs[i].as_slice());
        keys.push(c as i128);
        assert(keys@ =~= depths(ds).take(i + 1));
    }
    assert(keys@ =~= depths(ds));
    let order = stable_desc_order(&keys);
    let m = order.len();
    let mut out: Vec<Vec<u8>> = Vec::new();
    for t in 0..m
        invariant
            m == order@.len(),
            n == dirs@.len(),
            ds == byte_strings(dirs@),
            is_stable_desc_order(depths(ds), order@),
            byte_strings(out@) == ordered_without(ds, order@.take(t as int), root@),
    {
        let k = order[t];
        assert(order@.take(t + 1).drop_last() =~= order@.take(t as int));
        assert(ds[k as int] == dirs@[k as int]@);
        let ghost before = byte_strings(out@);
        if !bytes_eq(dirs[k].as_slice(), root) {
            out.push(copy_bytes(dirs[k].as_slice()));
            assert(byte_strings(out@) =~= before.push(ds[k as int]));
        }
    }
    assert(order@.take(m as int) =~= order@);
    out
}

/// Byte-string equality.
pub fn bytes_eq(a: &[u8], b: &[u8]) -> (res: bool)
    ensures
        res == (a@ == b@),
{
    if a.len() != b.len() {
        return false;
    }
    let n = a.len();
    for i in 0..n
        invariant
            n == a@.len(),
            n == b@.len(),
            forall|j: int| 0 <= j < i ==> a@[j] == b@[j],
    {
        if a[i] != b[i] {
            return false;
        }
    }
    assert(a@ =~= b@);
    true
}


/// Every directory in `ordered_without(dirs, order, root)` is some
/// `dirs[order[t]]` other than the root.
proof fn lemma_ordered_members(dirs: Seq<Seq<u8>>, order: Seq<usize>, root: Seq<u8>)
    ensures
        forall|a: int|
            0 <= a < ordered_without(dirs, order, root).len() ==> exists|t: int|
                0 <= t < order.len() && #[trigger] ordered_without(dirs, order, root)[a] == dirs[order[t] as int]
                    && dirs[order[t] as int] != root,
    decreases order.len(),
{
    if order.len() > 0 {
        let o = order.drop_last();
        lemma_ordered_members(dirs, o, root);
        let prev = ordered_without(dirs, o, root);
        let cur = ordered_without(dirs, order, root);
        assert forall|a: int| 0 <= a < cur.len() implies exists|t: int|
            0 <= t < order.len() && #[trigger] cur[a] == dirs[order[t] as int] && dirs[order[t] as int] != root by {
            if a < prev.len() {
                assert(cur[a] == prev[a]);
                let t = choose|t: int|
                    0 <= t < o.len() && #[trigger] prev[a] == dirs[o[t] as int] && dirs[o[t] as int] != root;
                assert(order[t] == o[t]);
            } else {
                assert(cur[a] == dirs[order.last() as int]);
                assert(order[order.len() - 1] == order.last());
            }
        }
    }
}

/// Filtering a sorted order keeps it sorted by depth.
proof fn lemma_filtered_sorted(dirs: Seq<Seq<u8>>, o: Seq<usize>, root: Seq<u8>)
    requires
        forall|i: int| 0 <= i < dirs.len() ==> #[trigger] spec_component_count(dirs[i]) <= u64::MAX,
        forall|t: int| 0 <= t < o.len() ==> #[trigger] o[t] < dirs.len(),
        forall|a: int, b: int|
            0 <= a < b < o.len() ==> crate::sorting::precedes(depths(dirs), #[trigger] o[a] as int, #[trigger] o[b] as int),
    ensures
        forall|a: int, b: int|
            0 <= a < b < ordered_without(dirs, o, root).len() ==> spec_component_count(
                #[trigger] ordered_without(dirs, o, root)[a],
            ) >= spec_component_count(#[trigger] ordered_without(dirs, o, root)[b]),
    decreases o.len(),
{
    if o.len() > 0 {
        let p = o.drop_last();
        lemma_filtered_sorted(dirs, p, root);
        lemma_ordered_members(dirs, p, root);
        let prev = ordered_without(dirs, p, root);
        let cur = ordered_without(dirs, o, root);
        let last = o.len() - 1;
        assert forall|a: int, b: int| 0 <= a < b < cur.len() implies spec_component_count(
            #[trigger] cur[a],
        ) >= spec_component_count(#[trigger] cur[b]) by {
            if b < prev.len() {
                assert(cur[a] == prev[a]);
                assert(cur[b] == prev[b]);
            } else {
                assert(dirs[o.last() as int] != root);
                assert(cur[b] == dirs[o[last] as int]);
                assert(cur[a] == prev[a]);
                let t = choose|t: int|
                    0 <= t < p.len() && #[trigger] prev[a] == dirs[p[t] as int] && dirs[p[t] as int] != root;
                assert(p[t] == o[t]);
                assert(crate::sorting::precedes(depths(dirs), o[t] as int, o[last] as int));
                assert(spec_component_count(dirs[o[t] as int]) <= u64::MAX);
                assert(spec_component_count(dirs[o[last] as int]) <= u64::MAX);
            }
        }
    }
}

/// The pruning order never includes the root, and goes from the deepest
/// directories up: the component count never increases along it.
pub proof fn lemma_prune_order_bottom_up(dirs: Seq<Seq<u8>>, root: Seq<u8>)
    requires
        dirs.len() <= usize::MAX,
        forall|i: int| 0 <= i < dirs.len() ==> #[trigger] spec_component_count(dirs[i]) <= u64::MAX,
    ensures
        forall|a: int|
            0 <= a < spec_prune_order(dirs, root).len() ==> #[trigger] spec_prune_order(dirs, root)[a] != root,
        forall|a: int, b: int|
            0 <= a < b < spec_prune_order(dirs, root).len() ==> spec_component_count(
                #[trigger] spec_prune_order(dirs, root)[a],
            ) >= spec_component_count(#[trigger] spec_prune_order(dirs, root)[b]),
{
    crate::sorting::lemma_stable_desc_exists(depths(dirs));
    let order = stable_desc(depths(dirs));
    lemma_ordered_members(dirs, order, root);
    lemma_filtered_sorted(dirs, order, root);
    let out = ordered_without(dirs, order, root);
    assert forall|a: int| 0 <= a < out.len() implies #[trigger] out[a] != root by {
        let t = choose|t: int|
            0 <= t < order.len() && #[trigger] out[a] == dirs[order[t] as int] && dirs[order[t] as int] != root;
    }
}

/// A directory is always tried before its parent: when `dirs[child]` is
/// `dirs[parent]` joined with a plain name, the child comes first in the
/// depth order that pruning follows.
pub proof fn lemma_children_pruned_first(dirs: Seq<Seq<u8>>, child: int, parent: int, name: Seq<u8>)
    requires
        dirs.len() <= usize::MAX,
        forall|i: int| 0 <= i < dirs.len() ==> #[trigger] spec_component_count(dirs[i]) < u64::MAX,
        0 <= child < dirs.len(),
        0 <= parent < dirs.len(),
        is_plain_name(name),
        dirs[child] == spec_join(dirs[parent], name),
    ensures
        forall|a: int, b: int|
            0 <= a < dirs.len() && 0 <= b < dirs.len() && #[trigger] stable_desc(depths(dirs))[a] == child
                && #[trigger] stable_desc(depths(dirs))[b] == parent ==> a < b,
{
    lemma_join_adds_component(dirs[parent], name);
    crate::sorting::lemma_stable_desc_exists(depths(dirs));
    let order = stable_desc(depths(dirs));
    let keys = depths(dirs);
    assert(keys[child] == keys[parent] + 1);
    assert forall|a: int, b: int|
        0 <= a < dirs.len() && 0 <= b < dirs.len() && #[trigger] order[a] == child && #[trigger] order[b]
            == parent implies a < b by {
        if b < a {
            assert(crate::sorting::precedes(keys, order[b] as int, order[a] as int));
        }
    }
}

/// `p` is the path of a capture among `entries` last modified before
/// `cutoff`.
pub open spec fn old_capture_path(entries: Seq<CaptureEntry>, p: Seq<u8>, cutoff: i128) -> bool {
    exists|k: int|
        0 <= k < captures_of(entries).len() && #[trigger] captures_of(entries)[k].path@ == p
            && captures_of(entries)[k].mtime < cutoff
}

/// `clean` only ever deletes captures: every expired path is the path of a
/// capture that the capture listing holds, and one older than the cut-off.
pub proof fn lemma_expired_are_captures(entries: Seq<CaptureEntry>, cutoff: i128)
    ensures
        forall|i: int|
            0 <= i < expired_paths(entries, cutoff).len() ==> old_capture_path(
                entries,
                #[trigger] expired_paths(entries, cutoff)[i],
                cutoff,
            ),
    decreases entries.len(),
{
    if entries.len() > 0 {
        let rest = entries.drop_last();
        lemma_expired_are_captures(rest, cutoff);
        let ex = expired_paths(entries, cutoff);
        let ex0 = expired_paths(rest, cutoff);
        let caps = captures_of(entries);
        let caps0 = captures_of(rest);
        assert forall|i: int| 0 <= i < ex.len() implies old_capture_path(entries, #[trigger] ex[i], cutoff) by {
            if i < ex0.len() {
                assert(ex[i] == ex0[i]);
                assert(old_capture_path(rest, ex0[i], cutoff));
                let k = choose|k: int|
                    0 <= k < caps0.len() && #[trigger] caps0[k].path@ == ex0[i] && caps0[k].mtime < cutoff;
                assert(caps[k] == caps0[k]);
                assert(caps[k].path@ == ex[i]);
            } else {
                assert(is_capture(entries.last()) && entries.last().mtime < cutoff);
                assert(ex[i] == entries.last().path@);
                let k = caps.len() - 1;
                assert(caps[k] == entries.last());
                assert(caps[k].path@ == ex[i]);
            }
        }
    }
}

/// In the newest-first listing, once a capture is old enough to be deleted
/// so is every capture after it: `clean` removes a tail of the listing.
pub proof fn lemma_expired_form_tail(entries: Seq<CaptureEntry>, cutoff: i128)
    requires
        entries.len() <= usize::MAX,
    ensures
        forall|a: int, b: int|
            0 <= a < b < captures_of(entries).len() && #[trigger] captures_of(entries)[stable_desc(
                mtimes(captures_of(entries)),
            )[a] as int].mtime < cutoff ==> #[trigger] captures_of(entries)[stable_desc(
                mtimes(captures_of(entries)),
            )[b] as int].mtime < cutoff,
{
    crate::util::lemma_listing_newest_first(entries);
}

/// Where a `clean` run stands.
pub enum CleanState {
    /// Waiting for the walk of the capture directory.
    Scanning { days: u64, yes: bool },
    /// Waiting for the count of old captures to be reported.
    Reporting { victims: Vec<Vec<u8>>, yes: bool, root: Vec<u8> },
    /// Waiting for the answer to the deletion prompt.
    Confirming { victims: Vec<Vec<u8>>, root: Vec<u8> },
    /// Waiting for the files to be removed and the directories listed.
    Removing { root: Vec<u8> },
    /// Nothing more to do.
    Done,
}

/// What the caller observed after performing the last action.
pub enum CleanEvent {
    /// The capture directory does not exist.
    RootMissing,
    /// The walk of the capture directory `root` found these entries; the
    /// clock read `now` (nanoseconds since the epoch).
    Scanned { entries: Vec<CaptureEntry>, now: i128, root: Vec<u8> },
    /// The count was reported.
    Reported,
    /// The user answered the deletion prompt with this line.
    Answered { line: String },
    /// The files were removed; these are the directories left, the capture
    /// directory first, in walk order.
    Removed { dirs: Vec<Vec<u8>> },
}

/// What the caller must do next.
pub enum CleanAction {
    /// Walk the capture directory.
    Scan,
    /// Report that there are no captures, and stop.
    NoCaptures,
    /// Report how many captures are older than `days` days.
    Report { found: usize, days: u64 },
    /// Ask `Delete them? [y/N]`.
    Ask,
    /// Remove these files, then list the directories.
    Remove { victims: Vec<Vec<u8>> },
    /// Remove each of these directories that is empty, in this order, and
    /// report that the run is done.
    Prune { dirs: Vec<Vec<u8>> },
    /// Stop.
    Finish,
}

/// The model of `CleanState`.
pub enum CleanStateView {
    Scanning { days: u64, yes: bool },
    Reporting { victims: Seq<Seq<u8>>, yes: bool, root: Seq<u8> },
    Confirming { victims: Seq<Seq<u8>>, root: Seq<u8> },
    Removing { root: Seq<u8> },
    Done,
}

/// The model of `CleanEvent`.
pub enum CleanEventView {
    RootMissing,
    Scanned { entries: Seq<CaptureEntry>, now: i128, root: Seq<u8> },
    Reported,
    Answered { line: Seq<char> },
    Removed { dirs: Seq<Seq<u8>> },
}

/// The model of `CleanAction`.
pub enum CleanActionView {
    Scan,
    NoCaptures,
    Report { found: nat, days: u64 },
    Ask,
    Remove { victims: Seq<Seq<u8>> },
    Prune { dirs: Seq<Seq<u8>> },
    Finish,
}

impl View for CleanState {
    type V = CleanStateView;

    open spec fn view(&self) -> CleanStateView {
        match self {
            CleanState::Scanning { days, yes } => CleanStateView::Scanning { days: *days, yes: *yes },
            CleanState::Reporting { victims, yes, root } => CleanStateView::Reporting {
                victims: byte_strings(victims@),
                yes: *yes,
                root: root@,
            },
            CleanState::Confirming { victims, root } => CleanStateView::Confirming {
                victims: byte_strings(victims@),
                root: root@,
            },
            CleanState::Removing { root } => CleanStateView::Removing { root: root@ },
            CleanState::Done => CleanStateView::Done,
        }
    }
}

impl View for CleanEvent {
    type V = CleanEventView;

    open spec fn view(&self) -> CleanEventView {
        match self {
            CleanEvent::RootMissing => CleanEventView::RootMissing,
            CleanEvent::Scanned { entries, now, root } => CleanEventView::Scanned {
                entries: entries@,
                now: *now,
                root: root@,
            },
            CleanEvent::Reported => CleanEventView::Reported,
            CleanEvent::Answered { line } => CleanEventView::Answered { line: line@ },
            CleanEvent::Removed { dirs } => CleanEventView::Removed { dirs: byte_strings(dirs@) },
        }
    }
}

impl View for CleanAction {
    type V = CleanActionView;

    open spec fn view(&self) -> CleanActionView {
        match self {
            CleanAction::Scan => CleanActionView::Scan,
            CleanAction::NoCaptures => CleanActionView::NoCaptures,
            CleanAction::Report { found, days } => CleanActionView::Report {
                found: *found as nat,
                days: *days,
            },
            CleanAction::Ask => CleanActionView::Ask,
            CleanAction::Remove { victims } => CleanActionView::Remove {
                victims: byte_strings(victims@),
            },
            CleanAction::Prune { dirs } => CleanActionView::Prune { dirs: byte_strings(dirs@) },
            CleanAction::Finish => CleanActionView::Finish,
        }
    }
}

/// A `clean` run starts by walking the capture directory.
pub open spec fn spec_clean_start(days: u64, yes: bool) -> (CleanStateView, CleanActionView) {
    (CleanStateView::Scanning { days, yes }, CleanActionView::Scan)
}

/// The event is the one the state waits for, and a scan comes with a clock
/// reading from which the cut-off can be computed.
pub open spec fn clean_expects(state: CleanStateView, event: CleanEventView) -> bool {
    match (state, event) {
        (CleanStateView::Scanning { .. }, CleanEventView::RootMissing) => true,
        (CleanStateView::Scanning { days, .. }, CleanEventView::Scanned { now, .. }) => cutoff_defined(
            now,
            days,
        ),
        (CleanStateView::Reporting { .. }, CleanEventView::Reported) => true,
        (CleanStateView::Confirming { .. }, CleanEventView::Answered { .. }) => true,
        (CleanStateView::Removing { .. }, CleanEventView::Removed { .. }) => true,
        _ => false,
    }
}

/// The next state and action of a `clean` run.
pub open spec fn spec_clean_step(state: CleanStateView, event: CleanEventView) -> (
    CleanStateView,
    CleanActionView,
)
    recommends
        clean_expects(state, event),
{
    match (state, event) {
        (CleanStateView::Scanning { .. }, CleanEventView::RootMissing) => (
            CleanStateView::Done,
            CleanActionView::NoCaptures,
        ),
        (CleanStateView::Scanning { days, yes }, CleanEventView::Scanned { entries, now, root }) => {
            let victims = expired_paths(entries, (now - days * day_nanos()) as i128);
            (
                CleanStateView::Reporting { victims, yes, root },
                CleanActionView::Report { found: victims.len(), days },
            )
        },
        (CleanStateView::Reporting { victims, yes, root }, CleanEventView::Reported) => {
            if victims.len() == 0 {
                (CleanStateView::Done, CleanActionView::Finish)
            } else if yes {
                (CleanStateView::Removing { root }, CleanActionView::Remove { victims })
            } else {
                (CleanStateView::Confirming { victims, root }, CleanActionView::Ask)
            }
        },
        (CleanStateView::Confirming { victims, root }, CleanEventView::Answered { line }) => {
            if spec_confirms(line) {
                (CleanStateView::Removing { root }, CleanActionView::Remove { victims })
            } else {
                (CleanStateView::Done, CleanActionView::Finish)
            }
        },
        (CleanStateView::Removing { root }, CleanEventView::Removed { dirs }) => (
            CleanStateView::Done,
            CleanActionView::Prune { dirs: spec_prune_order(dirs, root) },
        ),
        _ => (CleanStateView::Done, CleanActionView::Finish),
    }
}

/// The first state and action of a `clean` run.
pub fn clean_start(days: u64, yes: bool) -> (res: (CleanState, CleanAction))
    ensures
        (res.0@, res.1@) == spec_clean_start(days, yes),
{
    (CleanState::Scanning { days, yes }, CleanAction::Scan)
}

/// The next state and action of a `clean` run.
pub fn clean_step(state: CleanState, event: CleanEvent) -> (res: (CleanState, CleanAction))
    requires
        clean_expects(state@, event@),
    ensures
        (res.0@, res.1@) == spec_clean_step(state@, event@),
{
    match (state, event) {
        (CleanState::Scanning { .. }, CleanEvent::RootMissing) => (
            CleanState::Done,
            CleanAction::NoCaptures,
        ),
        (CleanState::Scanning { days, yes }, CleanEvent::Scanned { entries, now, root }) => {
            let cutoff = expiry_cutoff(now, days);
            let victims = select_expired(&entries, cutoff);
            let found = victims.len();
            (CleanState::Reporting { victims, yes, root }, CleanAction::Report { found, days })
        },
        (CleanState::Reporting { victims, yes, root }, CleanEvent::Reported) => {
            if victims.len() == 0 {
                (CleanState::Done, CleanAction::Finish)
            } else if yes {
                (CleanState::Removing { root }, CleanAction::Remove { victims })
            } else {
                (CleanState::Confirming { victims, root }, CleanAction::Ask)
            }
        },
        (CleanState::Confirming { victims, root }, CleanEvent::Answered { line }) => {
            if confirms_deletion(line.as_str()) {
                (CleanState::Removing { root }, CleanAction::Remove { victims })
            } else {
                (CleanState::Done, CleanAction::Finish)
            }
        },
        (CleanState::Removing { root }, CleanEvent::Removed { dirs }) => {
            let order = prune_order(&dirs, root.as_slice());
            (CleanState::Done, CleanAction::Prune { dirs: order })
        },
        (_, _) => (CleanState::Done, CleanAction::Finish),
    }
}

proof fn lemma_expired_is_filter(entries: Seq<CaptureEntry>, c: i128, cut: int)
    requires
        c == cut,
    ensures
        expired_paths(entries, c) == entries.filter(
            |e: CaptureEntry| e.is_file && has_log_extension(e.file_name@) && e.mtime < cut,
        ).map_values(|e: CaptureEntry| e.path@),
    decreases entries.len(),
{
    reveal(Seq::filter);
    let pred = |e: CaptureEntry| e.is_file && has_log_extension(e.file_name@) && e.mtime < cut;
    let f = |e: CaptureEntry| e.path@;
    if entries.len() > 0 {
        lemma_expired_is_filter(entries.drop_last(), c, cut);
        let sub = entries.drop_last().filter(pred);
        if pred(entries.last()) {
            assert(entries.filter(pred) == sub.push(entries.last()));
            assert(sub.push(entries.last()).map_values(f) =~= sub.map_values(f).push(entries.last().path@));
        } else {
            assert(entries.filter(pred) == sub);
        }
    } else {
        assert(entries.filter(pred).map_values(f) =~= Seq::<Seq<u8>>::empty());
    }
}

/// A scan marks for deletion exactly the captures (regular files with a
/// `.log` extension) among the walked entries that were last modified more
/// than `days` whole days (of 86 400 s) before the clock reading `now`, in
/// walk order, and reports how many; a capture modified since is never a
/// victim. Once the count is reported, a run with `--yes` removes exactly
/// those paths, and a run that found none stops.
pub proof fn lemma_scan_selects_old_captures(
    days: u64,
    yes: bool,
    entries: Seq<CaptureEntry>,
    now: i128,
    root: Seq<u8>,
)
    requires
        days * 86_400 <= u64::MAX,
        now - days * 86_400_000_000_000 >= min_time(),
    ensures
        ({
            let victims = entries.filter(
                |e: CaptureEntry|
                    e.is_file && has_log_extension(e.file_name@) && e.mtime < now - days * 86_400_000_000_000,
            ).map_values(|e: CaptureEntry| e.path@);
            &&& spec_clean_step(
                CleanStateView::Scanning { days, yes },
                CleanEventView::Scanned { entries, now, root },
            ) == (
                CleanStateView::Reporting { victims, yes, root },
                CleanActionView::Report { found: victims.len(), days },
            )
            &&& (yes && victims.len() > 0 ==> spec_clean_step(
                CleanStateView::Reporting { victims, yes, root },
                CleanEventView::Reported,
            ) == (CleanStateView::Removing { root }, CleanActionView::Remove { victims }))
            &&& (victims.len() == 0 ==> spec_clean_step(
                CleanStateView::Reporting { victims, yes, root },
                CleanEventView::Reported,
            ) == (CleanStateView::Done, CleanActionView::Finish))
        }),
{
    let cut: int = now - days * 86_400_000_000_000;
    assert(days * 86_400_000_000_000 >= 0) by (nonlinear_arith)
        requires
            days >= 0,
    ;
    assert(i128::MIN <= cut <= i128::MAX);
    let c: i128 = cut as i128;
    assert(c == cut);
    lemma_expired_is_filter(entries, c, cut);
}

/// Nothing is removed unless the user agreed or passed `--yes`: a run that
/// is asked to confirm and gets any answer other than `y`, `Y` or `yes`
/// stops without removing anything.
pub proof fn lemma_refusal_removes_nothing(victims: Seq<Seq<u8>>, root: Seq<u8>, line: Seq<char>)
    requires
        !spec_confirms(line),
    ensures
        spec_clean_step(
            CleanStateView::Confirming { victims, root },
            CleanEventView::Answered { line },
        ) == (CleanStateView::Done, CleanActionView::Finish),
{
}

/// The deletion prompt is answered yes exactly by `y`, `Y` or `yes`,
/// once surrounding whitespace is trimmed.
pub proof fn lemma_confirm_answers(line: Seq<char>)
    ensures
        spec_confirms(line) <==> (trimmed(line) == seq!['y'] || trimmed(line) == seq!['Y'] || trimmed(line)
            == seq!['y', 'e', 's']),
{
    reveal_strlit("y");
    reveal_strlit("Y");
    reveal_strlit("yes");
    assert("y"@ =~= seq!['y']);
    assert("Y"@ =~= seq!['Y']);
    assert("yes"@ =~= seq!['y', 'e', 's']);
}

/// Without `--yes`, a run with something to delete always asks first.
pub proof fn lemma_asks_without_yes(victims: Seq<Seq<u8>>, root: Seq<u8>)
    requires
        victims.len() > 0,
    ensures
        spec_clean_step(
            CleanStateView::Reporting { victims, yes: false, root },
            CleanEventView::Reported,
        ) == (CleanStateView::Confirming { victims, root }, CleanActionView::Ask),
{
}


} // verus!
