//! The kubectl pod picker: choose a context, a namespace and a pod, then
//! stream and capture that pod's logs.
//!
//! The command alternates with kubectl and fzf; its decisions are a state
//! machine here (`start`, `step`), and the caller performs each action and
//! reports back what happened.

use vstd::prelude::*;
use crate::text::{
    chars_of, trim, trimmed, first_field, first_field_of, find_char, lines, split_lines, contains,
    contains_str, lowercase, to_lowercase, char_index, lemma_char_index_bounds, split_char,
    split_from, decimal_chars, push_decimal, string_of,
};

verus! {

/// The options of `klogz klf`.
pub struct Args {
    /// Switch to the first context whose name contains this, ignoring case.
    pub context_keyword: Option<String>,
    /// The namespace to list pods in when none is picked interactively.
    pub namespace: String,
    /// Pick the namespace interactively first.
    pub prompt_namespace: bool,
    /// Lines shown in the log preview of each pod.
    pub tail_lines: u32,
}

/// The model of `Args`.
pub struct ArgsView {
    pub context_keyword: Option<Seq<char>>,
    pub namespace: Seq<char>,
    pub prompt_namespace: bool,
    pub tail_lines: u32,
}

impl View for Args {
    type V = ArgsView;

    open spec fn view(&self) -> ArgsView {
        ArgsView {
            context_keyword: self.context_keyword.deep_view(),
            namespace: self.namespace@,
            prompt_namespace: self.prompt_namespace,
            tail_lines: self.tail_lines,
        }
    }
}

/// The first of `ls` whose lowercase form contains `needle`.
pub open spec fn first_matching(ls: Seq<Seq<char>>, needle: Seq<char>) -> Option<Seq<char>>
    decreases ls.len(),
{
    if ls.len() == 0 {
        None
    } else if contains_str(lowercase(ls[0]), needle) {
        Some(ls[0])
    } else {
        first_matching(ls.drop_first(), needle)
    }
}

/// The context chosen for `keyword` from the output of
/// `kubectl config get-contexts -o name`: the first line that contains the
/// keyword, both lowercased.
pub open spec fn spec_find_context(listing: Seq<char>, keyword: Seq<char>) -> Option<Seq<char>> {
    first_matching(lines(listing), lowercase(keyword))
}

/// The first of `lines` whose lowercase form (at the same index of
/// `lowered`) contains `needle`.
pub open spec fn first_containing(
    lines: Seq<Seq<char>>,
    lowered: Seq<Seq<char>>,
    needle: Seq<char>,
) -> Option<Seq<char>>
    decreases lines.len(),
{
    if lines.len() == 0 {
        None
    } else if contains_str(lowered[0], needle) {
        Some(lines[0])
    } else {
        first_containing(lines.drop_first(), lowered.drop_first(), needle)
    }
}

proof fn lemma_first_containing_lowercase(ls: Seq<Seq<char>>, needle: Seq<char>)
    ensures
        first_containing(ls, Seq::new(ls.len(), |i: int| lowercase(ls[i])), needle)
            == first_matching(ls, needle),
    decreases ls.len(),
{
    if ls.len() > 0 {
        let low = Seq::new(ls.len(), |i: int| lowercase(ls[i]));
        let rest = ls.drop_first();
        assert(low.drop_first() =~= Seq::new(rest.len(), |i: int| lowercase(rest[i])));
        lemma_first_containing_lowercase(rest, needle);
    }
}

proof fn lemma_first_matching_is_first(ls: Seq<Seq<char>>, needle: Seq<char>)
    ensures
        first_matching(ls, needle) is None ==> forall|k: int|
            0 <= k < ls.len() ==> !contains_str(lowercase(#[trigger] ls[k]), needle),
        first_matching(ls, needle) is Some ==> exists|k: int|
            0 <= k < ls.len() && first_matching(ls, needle) == Some(#[trigger] ls[k]) && contains_str(
                lowercase(ls[k]),
                needle,
            ) && forall|j: int| 0 <= j < k ==> !contains_str(lowercase(#[trigger] ls[j]), needle),
    decreases ls.len(),
{
    if ls.len() > 0 {
        let rest = ls.drop_first();
        lemma_first_matching_is_first(rest, needle);
        if contains_str(lowercase(ls[0]), needle) {
            assert(first_matching(ls, needle) == Some(ls[0]));
        } else {
            assert forall|k: int| 0 < k < ls.len() implies ls[k] == #[trigger] rest[k - 1] by {}
            if first_matching(rest, needle) is None {
                assert forall|k: int| 0 <= k < ls.len() implies !contains_str(lowercase(#[trigger] ls[k]), needle) by {
                    if k > 0 {
                        assert(ls[k] == rest[k - 1]);
                    }
                }
            } else {
                let k = choose|k: int|
                    0 <= k < rest.len() && first_matching(rest, needle) == Some(#[trigger] rest[k])
                        && contains_str(lowercase(rest[k]), needle) && forall|j: int|
                        0 <= j < k ==> !contains_str(lowercase(#[trigger] rest[j]), needle);
                assert(ls[k + 1] == rest[k]);
                assert forall|j: int| 0 <= j < k + 1 implies !contains_str(lowercase(#[trigger] ls[j]), needle) by {
                    if j > 0 {
                        assert(ls[j] == rest[j - 1]);
                    }
                }
            }
        }
    }
}

/// A context is found whenever the lowercase keyword occurs in the
/// lowercase form of some line `k` of the listing, at any index `i`: the one
/// chosen is that line or an earlier one.
pub proof fn lemma_context_found_anywhere(listing: Seq<char>, keyword: Seq<char>, k: int, i: int)
    requires
        0 <= k < lines(listing).len(),
        0 <= i,
        i + lowercase(keyword).len() <= lowercase(lines(listing)[k]).len(),
        lowercase(lines(listing)[k]).subrange(i, i + lowercase(keyword).len()) == lowercase(keyword),
    ensures
        exists|j: int| 0 <= j <= k && spec_find_context(listing, keyword) == Some(#[trigger] lines(listing)[j]),
{
    let ls = lines(listing);
    let kw = lowercase(keyword);
    crate::text::lemma_contains_iff_slice(lowercase(ls[k]), kw);
    lemma_first_matching_is_first(ls, kw);
    if first_matching(ls, kw) is None {
        assert(!contains_str(lowercase(ls[k]), kw));
    } else {
        let j = choose|j: int|
            0 <= j < ls.len() && first_matching(ls, kw) == Some(#[trigger] ls[j]) && contains_str(
                lowercase(ls[j]),
                kw,
            ) && forall|t: int| 0 <= t < j ==> !contains_str(lowercase(#[trigger] ls[t]), kw);
        if j > k {
            assert(!contains_str(lowercase(ls[k]), kw));
        }
    }
}

/// The context chosen is a line of the listing in whose lowercase form the
/// lowercase keyword occurs at some index, and the keyword occurs at no
/// index of any earlier line; when no line holds it, none is chosen.
pub proof fn lemma_context_is_first_occurrence(listing: Seq<char>, keyword: Seq<char>)
    ensures
        spec_find_context(listing, keyword) is None ==> forall|k: int, i: int|
            0 <= k < lines(listing).len() && 0 <= i && i + lowercase(keyword).len() <= lowercase(
                lines(listing)[k],
            ).len() ==> #[trigger] lowercase(lines(listing)[k]).subrange(i, i + lowercase(keyword).len())
                != lowercase(keyword),
        spec_find_context(listing, keyword) is Some ==> exists|k: int|
            0 <= k < lines(listing).len() && spec_find_context(listing, keyword) == Some(
                #[trigger] lines(listing)[k],
            ) && (exists|i: int|
                0 <= i && i + lowercase(keyword).len() <= lowercase(lines(listing)[k]).len()
                    && #[trigger] lowercase(lines(listing)[k]).subrange(i, i + lowercase(keyword).len())
                    == lowercase(keyword)) && (forall|j: int, i: int|
                0 <= j < k && 0 <= i && i + lowercase(keyword).len() <= lowercase(lines(listing)[j]).len()
                    ==> #[trigger] lowercase(lines(listing)[j]).subrange(i, i + lowercase(keyword).len())
                    != lowercase(keyword)),
{
    let ls = lines(listing);
    let kw = lowercase(keyword);
    lemma_first_matching_is_first(ls, kw);
    if first_matching(ls, kw) is None {
        assert forall|k: int, i: int|
            0 <= k < ls.len() && 0 <= i && i + kw.len() <= lowercase(ls[k]).len() implies #[trigger] lowercase(
            ls[k],
        ).subrange(i, i + kw.len()) != kw by {
            crate::text::lemma_contains_iff_slice(lowercase(ls[k]), kw);
            assert(!contains_str(lowercase(ls[k]), kw));
        }
    } else {
        let k = choose|k: int|
            0 <= k < ls.len() && first_matching(ls, kw) == Some(#[trigger] ls[k]) && contains_str(
                lowercase(ls[k]),
                kw,
            ) && forall|j: int| 0 <= j < k ==> !contains_str(lowercase(#[trigger] ls[j]), kw);
        crate::text::lemma_contains_iff_slice(lowercase(ls[k]), kw);
        assert forall|j: int, i: int|
            0 <= j < k && 0 <= i && i + kw.len() <= lowercase(ls[j]).len() implies #[trigger] lowercase(
            ls[j],
        ).subrange(i, i + kw.len()) != kw by {
            crate::text::lemma_contains_iff_slice(lowercase(ls[j]), kw);
            assert(!contains_str(lowercase(ls[j]), kw));
        }
    }
}

/// Picks the context: the first line whose lowercase form (`lowered`, line
/// by line) contains the lowercase keyword `needle`.
pub fn match_context(lines: &Vec<String>, lowered: &Vec<String>, needle: &str) -> (res: Option<String>)
    requires
        lines@.len() == lowered@.len(),
    ensures
        res.deep_view() == first_containing(lines.deep_view(), lowered.deep_view(), needle@),
{
    let needle_cs = chars_of(needle);
    let n = lines.len();
    let ghost ls = lines.deep_view();
    let ghost lw = lowered.deep_view();
    assert(ls.skip(0) =~= ls);
    assert(lw.skip(0) =~= lw);
    for i in 0..n
        invariant
            n == lines@.len(),
            n == lowered@.len(),
            ls == lines.deep_view(),
            lw == lowered.deep_view(),
            needle_cs@ == needle@,
            first_containing(ls, lw, needle@) == first_containing(
                ls.skip(i as int),
                lw.skip(i as int),
                needle@,
            ),
    {
        let low_cs = chars_of(lowered[i].as_str());
        proof {
            assert(ls.skip(i as int)[0] == lines@[i as int]@);
            assert(lw.skip(i as int)[0] == lowered@[i as int]@);
            assert(ls.skip(i as int).drop_first() =~= ls.skip(i + 1));
            assert(lw.skip(i as int).drop_first() =~= lw.skip(i + 1));
        }
        if contains(&low_cs, &needle_cs) {
            return Some(lines[i].clone());
        }
    }
    assert(ls.skip(n as int) =~= Seq::<Seq<char>>::empty());
    None
}

/// Finds the context to switch to in the output of
/// `kubectl config get-contexts -o name`.
pub fn find_context(listing: &str, keyword: &str) -> (res: Option<String>)
    ensures
        res.deep_view() == spec_find_context(listing@, keyword@),
{
    let needle = to_lowercase(keyword);
    let ls = split_lines(listing);
    let n = ls.len();
    let ghost all = ls.deep_view();
    let mut lowered: Vec<String> = Vec::new();
    for i in 0..n
        invariant
            n == ls@.len(),
            all == ls.deep_view(),
            lowered.deep_view() == Seq::new(i as nat, |j: int| lowercase(all[j])),
    {
        let low = to_lowercase(ls[i].as_str());
        let ghost before = lowered.deep_view();
        let ghost low_v = low@;
        lowered.push(low);
        assert(all[i as int] == ls@[i as int]@);
        assert(lowered.deep_view() =~= before.push(low_v));
        assert(lowered.deep_view() =~= Seq::new((i + 1) as nat, |j: int| lowercase(all[j])));
    }
    proof {
        lemma_first_containing_lowercase(all, needle@);
        assert(lowered.deep_view() =~= Seq::new(all.len(), |j: int| lowercase(all[j])));
    }
    match_context(&ls, &lowered, needle.as_str())
}

/// What a picker printed, trimmed, or `None` when nothing was picked.
pub open spec fn spec_picked(output: Seq<char>) -> Option<Seq<char>> {
    if trimmed(output).len() == 0 {
        None
    } else {
        Some(trimmed(output))
    }
}

/// The selection a picker printed, if any.
pub fn picked(output: &str) -> (res: Option<String>)
    ensures
        res.deep_view() == spec_picked(output@),
{
    let t = trim(output);
    if t.as_str().is_empty() {
        None
    } else {
        Some(t)
    }
}

/// The row picked in the pod picker, and the pod named in its first field.
pub struct PodSelection {
    pub row: String,
    pub pod: String,
}

/// The row and the pod that the pod picker's output selects, if any.
pub open spec fn spec_pod_selection(output: Seq<char>) -> Option<(Seq<char>, Seq<char>)> {
    let row = trimmed(output);
    if row.len() == 0 || first_field(row).len() == 0 {
        None
    } else {
        Some((row, first_field(row)))
    }
}

/// The view of an optional pod selection.
pub open spec fn selection_view(s: Option<PodSelection>) -> Option<(Seq<char>, Seq<char>)> {
    match s {
        Some(sel) => Some((sel.row@, sel.pod@)),
        None => None,
    }
}

/// Reads the pod picker's output.
pub fn pod_selection(output: &str) -> (res: Option<PodSelection>)
    ensures
        selection_view(res) == spec_pod_selection(output@),
{
    let row = trim(output);
    if row.as_str().is_empty() {
        return None;
    }
    let cs = chars_of(row.as_str());
    let pod = first_field_of(&cs);
    if pod.as_str().is_empty() {
        return None;
    }
    Some(PodSelection { row, pod })
}

/// The capture label for a pod: its first two dash-separated segments.
pub open spec fn spec_pod_label(pod: Seq<char>) -> Seq<char> {
    let segs = split_char(pod, '-');
    if segs.len() >= 2 {
        segs[0] + seq!['-'] + segs[1]
    } else {
        segs[0]
    }
}

/// The capture label for a pod (`pod.split('-').take(2)` joined by `-`).
pub fn pod_label(pod: &str) -> (res: String)
    ensures
        res@ == spec_pod_label(pod@),
{
    let cs = chars_of(pod);
    let n = cs.len();
    let e1 = find_char(&cs, '-', 0);
    proof {
        lemma_char_index_bounds(cs@, '-', 0);
        assert(split_from(cs@, '-', 0) == if e1 < n {
            seq![cs@.subrange(0, e1 as int)] + split_from(cs@, '-', e1 + 1)
        } else {
            seq![cs@.subrange(0, n as int)]
        });
    }
    if e1 == n {
        assert(cs@.subrange(0, n as int) =~= pod@);
        return string_of(&cs, 0, n);
    }
    let e2 = find_char(&cs, '-', e1 + 1);
    proof {
        lemma_char_index_bounds(cs@, '-', e1 + 1);
        let segs = split_char(cs@, '-');
        assert(segs[0] == cs@.subrange(0, e1 as int));
        assert(split_from(cs@, '-', e1 + 1)[0] == cs@.subrange(e1 + 1, e2 as int));
        assert(segs[1] == split_from(cs@, '-', e1 + 1)[0]);
        assert(segs[0] + seq!['-'] + segs[1] =~= cs@.subrange(0, e2 as int));
    }
    string_of(&cs, 0, e2)
}

/// `kubectl logs -f <pod> -n <namespace>`.
pub open spec fn spec_follow_command(pod: Seq<char>, namespace: Seq<char>) -> Seq<Seq<char>> {
    seq!["kubectl"@, "logs"@, "-f"@, pod, "-n"@, namespace]
}

/// The command that streams a pod's logs.
pub fn follow_command(pod: &str, namespace: &str) -> (res: Vec<String>)
    ensures
        res.deep_view() == spec_follow_command(pod@, namespace@),
{
    let mut v: Vec<String> = Vec::new();
    v.push("kubectl".to_owned());
    v.push("logs".to_owned());
    v.push("-f".to_owned());
    v.push(pod.to_owned());
    v.push("-n".to_owned());
    v.push(namespace.to_owned());
    assert(v.deep_view() =~= spec_follow_command(pod@, namespace@));
    v
}

/// The picker prompt: `Select Pod (<ns>) > `.
pub open spec fn pod_prompt(namespace: Seq<char>) -> Seq<char> {
    "Select Pod ("@ + namespace + ") > "@
}

/// The preview command: `kubectl logs --tail=<n> -n <ns> {1} 2>&1`.
pub open spec fn pod_preview(namespace: Seq<char>, tail_lines: u32) -> Seq<char> {
    "kubectl logs --tail="@ + decimal_chars(tail_lines as nat) + " -n "@ + namespace + " {1} 2>&1"@
}

/// The key binding that opens a pod's full logs in `less`:
/// `ctrl-l:execute(kubectl logs -n <ns> {1} | less)`.
pub open spec fn pod_less_binding(namespace: Seq<char>) -> Seq<char> {
    "ctrl-l:execute(kubectl logs -n "@ + namespace + " {1} | less)"@
}

/// The fzf arguments of the pod picker.
pub open spec fn spec_pod_picker_args(namespace: Seq<char>, tail_lines: u32) -> Seq<Seq<char>> {
    seq![
        "--tac"@,
        "--header-lines=1"@,
        "--height"@,
        "80%"@,
        "--prompt"@,
        pod_prompt(namespace),
        "--layout=reverse"@,
        "--preview"@,
        pod_preview(namespace, tail_lines),
        "--preview-window=right:60%:wrap"@,
        "--bind"@,
        "ctrl-u:preview-half-page-up,ctrl-d:preview-half-page-down"@,
        "--bind"@,
        pod_less_binding(namespace),
    ]
}

/// Builds the fzf arguments of the pod picker.
pub fn pod_picker_args(namespace: &str, tail_lines: u32) -> (res: Vec<String>)
    ensures
        res.deep_view() == spec_pod_picker_args(namespace@, tail_lines),
{
    let mut prompt = "Select Pod (".to_owned();
    prompt.append(namespace);
    prompt.append(") > ");
    let mut preview = "kubectl logs --tail=".to_owned();
    push_decimal(&mut preview, tail_lines);
    preview.append(" -n ");
    preview.append(namespace);
    preview.append(" {1} 2>&1");
    let mut less = "ctrl-l:execute(kubectl logs -n ".to_owned();
    less.append(namespace);
    less.append(" {1} | less)");
    let mut v: Vec<String> = Vec::new();
    v.push("--tac".to_owned());
    v.push("--header-lines=1".to_owned());
    v.push("--height".to_owned());
    v.push("80%".to_owned());
    v.push("--prompt".to_owned());
    v.push(prompt);
    v.push("--layout=reverse".to_owned());
    v.push("--preview".to_owned());
    v.push(preview);
    v.push("--preview-window=right:60%:wrap".to_owned());
    v.push("--bind".to_owned());
    v.push("ctrl-u:preview-half-page-up,ctrl-d:preview-half-page-down".to_owned());
    v.push("--bind".to_owned());
    v.push(less);
    assert(v.deep_view() =~= spec_pod_picker_args(namespace@, tail_lines));
    v
}


/// Where a `klf` run stands.
pub enum KlfState {
    /// Waiting for the list of kubectl contexts, to find `keyword` in it.
    ListingContexts { keyword: String, args: Args },
    /// Waiting for kubectl to switch context.
    UsingContext { args: Args },
    /// Waiting for the namespace picker.
    PickingNamespace { tail_lines: u32 },
    /// Waiting for the pod picker.
    PickingPod { namespace: String, tail_lines: u32 },
    /// Nothing more to do.
    Done,
}

/// What the caller observed after performing the last action.
pub enum KlfEvent {
    /// `kubectl config get-contexts -o name` finished.
    ContextsListed { success: bool, stdout: String, stderr: String },
    /// `kubectl config use-context` finished.
    ContextUsed { success: bool },
    /// The namespace picker printed this.
    NamespacePicked { output: String },
    /// The pod picker printed this.
    PodPicked { output: String },
}

/// Why a `klf` run fails.
pub enum KlfError {
    /// `kubectl config get-contexts` failed with this error output.
    ListContextsFailed { stderr: String },
    /// No context matches the keyword.
    ContextNotFound { keyword: String },
    /// `kubectl config use-context` failed.
    UseContextFailed,
}

/// What the caller must do next.
pub enum KlfAction {
    /// Run `kubectl config get-contexts -o name`.
    ListContexts,
    /// Announce and run `kubectl config use-context <context>`.
    UseContext { context: String },
    /// Run the namespace picker (`kubectl get namespaces` into fzf).
    PickNamespace,
    /// Run `kubectl get pods -n <namespace>` into fzf with these arguments.
    PickPod { namespace: String, fzf_args: Vec<String> },
    /// Echo the picked row, then stream and capture with this label and command.
    Follow { row: String, pod: String, label: String, command: Vec<String> },
    /// Stop with this exit code.
    Finish { code: i32 },
    /// Stop with this error.
    Fail { error: KlfError },
}

/// The model of `KlfState`.
pub enum KlfStateView {
    ListingContexts { keyword: Seq<char>, args: ArgsView },
    UsingContext { args: ArgsView },
    PickingNamespace { tail_lines: u32 },
    PickingPod { namespace: Seq<char>, tail_lines: u32 },
    Done,
}

/// The model of `KlfEvent`.
pub enum KlfEventView {
    ContextsListed { success: bool, stdout: Seq<char>, stderr: Seq<char> },
    ContextUsed { success: bool },
    NamespacePicked { output: Seq<char> },
    PodPicked { output: Seq<char> },
}

/// The model of `KlfError`.
pub enum KlfErrorView {
    ListContextsFailed { stderr: Seq<char> },
    ContextNotFound { keyword: Seq<char> },
    UseContextFailed,
}

/// The model of `KlfAction`.
pub enum KlfActionView {
    ListContexts,
    UseContext { context: Seq<char> },
    PickNamespace,
    PickPod { namespace: Seq<char>, fzf_args: Seq<Seq<char>> },
    Follow { row: Seq<char>, pod: Seq<char>, label: Seq<char>, command: Seq<Seq<char>> },
    Finish { code: i32 },
    Fail { error: KlfErrorView },
}

impl View for KlfState {
    type V = KlfStateView;

    open spec fn view(&self) -> KlfStateView {
        match self {
            KlfState::ListingContexts { keyword, args } => KlfStateView::ListingContexts {
                keyword: keyword@,
                args: args@,
            },
            KlfState::UsingContext { args } => KlfStateView::UsingContext { args: args@ },
            KlfState::PickingNamespace { tail_lines } => KlfStateView::PickingNamespace {
                tail_lines: *tail_lines,
            },
            KlfState::PickingPod { namespace, tail_lines } => KlfStateView::PickingPod {
                namespace: namespace@,
                tail_lines: *tail_lines,
            },
            KlfState::Done => KlfStateView::Done,
        }
    }
}

impl View for KlfEvent {
    type V = KlfEventView;

    open spec fn view(&self) -> KlfEventView {
        match self {
            KlfEvent::ContextsListed { success, stdout, stderr } => KlfEventView::ContextsListed {
                success: *success,
                stdout: stdout@,
                stderr: stderr@,
            },
            KlfEvent::ContextUsed { success } => KlfEventView::ContextUsed { success: *success },
            KlfEvent::NamespacePicked { output } => KlfEventView::NamespacePicked { output: output@ },
            KlfEvent::PodPicked { output } => KlfEventView::PodPicked { output: output@ },
        }
    }
}

impl View for KlfError {
    type V = KlfErrorView;

    open spec fn view(&self) -> KlfErrorView {
        match self {
            KlfError::ListContextsFailed { stderr } => KlfErrorView::ListContextsFailed {
                stderr: stderr@,
            },
            KlfError::ContextNotFound { keyword } => KlfErrorView::ContextNotFound {
                keyword: keyword@,
            },
            KlfError::UseContextFailed => KlfErrorView::UseContextFailed,
        }
    }
}

impl View for KlfAction {
    type V = KlfActionView;

    open spec fn view(&self) -> KlfActionView {
        match self {
            KlfAction::ListContexts => KlfActionView::ListContexts,
            KlfAction::UseContext { context } => KlfActionView::UseContext { context: context@ },
            KlfAction::PickNamespace => KlfActionView::PickNamespace,
            KlfAction::PickPod { namespace, fzf_args } => KlfActionView::PickPod {
                namespace: namespace@,
                fzf_args: fzf_args.deep_view(),
            },
            KlfAction::Follow { row, pod, label, command } => KlfActionView::Follow {
                row: row@,
                pod: pod@,
                label: label@,
                command: command.deep_view(),
            },
            KlfAction::Finish { code } => KlfActionView::Finish { code: *code },
            KlfAction::Fail { error } => KlfActionView::Fail { error: error@ },
        }
    }
}

/// Opening the pod picker on `namespace`.
pub open spec fn spec_open_pod_picker(namespace: Seq<char>, tail_lines: u32) -> (
    KlfStateView,
    KlfActionView,
) {
    (
        KlfStateView::PickingPod { namespace, tail_lines },
        KlfActionView::PickPod {
            namespace,
            fzf_args: spec_pod_picker_args(namespace, tail_lines),
        },
    )
}

/// Once the context is settled: pick the namespace if asked to, else go
/// straight to the pods of the given namespace.
pub open spec fn spec_after_context(args: ArgsView) -> (KlfStateView, KlfActionView) {
    if args.prompt_namespace {
        (KlfStateView::PickingNamespace { tail_lines: args.tail_lines }, KlfActionView::PickNamespace)
    } else {
        spec_open_pod_picker(args.namespace, args.tail_lines)
    }
}

/// The first step of a run: switch context when a keyword is given.
pub open spec fn spec_start(args: ArgsView) -> (KlfStateView, KlfActionView) {
    if args.context_keyword is Some {
        (
            KlfStateView::ListingContexts { keyword: args.context_keyword->0, args },
            KlfActionView::ListContexts,
        )
    } else {
        spec_after_context(args)
    }
}

/// The event is the one the state waits for.
pub open spec fn expects(state: KlfStateView, event: KlfEventView) -> bool {
    match (state, event) {
        (KlfStateView::ListingContexts { .. }, KlfEventView::ContextsListed { .. }) => true,
        (KlfStateView::UsingContext { .. }, KlfEventView::ContextUsed { .. }) => true,
        (KlfStateView::PickingNamespace { .. }, KlfEventView::NamespacePicked { .. }) => true,
        (KlfStateView::PickingPod { .. }, KlfEventView::PodPicked { .. }) => true,
        _ => false,
    }
}

/// The next state and action after `event` in `state`.
pub open spec fn spec_step(state: KlfStateView, event: KlfEventView) -> (KlfStateView, KlfActionView)
    recommends
        expects(state, event),
{
    match (state, event) {
        (
            KlfStateView::ListingContexts { keyword, args },
            KlfEventView::ContextsListed { success, stdout, stderr },
        ) => {
            if !success {
                (
                    KlfStateView::Done,
                    KlfActionView::Fail { error: KlfErrorView::ListContextsFailed { stderr } },
                )
            } else {
                match spec_find_context(stdout, keyword) {
                    Some(context) => (
                        KlfStateView::UsingContext { args },
                        KlfActionView::UseContext { context },
                    ),
                    None => (
                        KlfStateView::Done,
                        KlfActionView::Fail {
                            error: KlfErrorView::ContextNotFound { keyword },
                        },
                    ),
                }
            }
        },
        (KlfStateView::UsingContext { args }, KlfEventView::ContextUsed { success }) => {
            if !success {
                (KlfStateView::Done, KlfActionView::Fail { error: KlfErrorView::UseContextFailed })
            } else {
                spec_after_context(args)
            }
        },
        (KlfStateView::PickingNamespace { tail_lines }, KlfEventView::NamespacePicked { output }) => {
            match spec_picked(output) {
                Some(namespace) => spec_open_pod_picker(namespace, tail_lines),
                None => (KlfStateView::Done, KlfActionView::Finish { code: 0 }),
            }
        },
        (KlfStateView::PickingPod { namespace, tail_lines }, KlfEventView::PodPicked { output }) => {
            match spec_pod_selection(output) {
                Some((row, pod)) => (
                    KlfStateView::Done,
                    KlfActionView::Follow {
                        row,
                        pod,
                        label: spec_pod_label(pod),
                        command: spec_follow_command(pod, namespace),
                    },
                ),
                None => (KlfStateView::Done, KlfActionView::Finish { code: 0 }),
            }
        },
        _ => (KlfStateView::Done, KlfActionView::Finish { code: 0 }),
    }
}

/// Opens the pod picker on `namespace`.
fn open_pod_picker(namespace: String, tail_lines: u32) -> (res: (KlfState, KlfAction))
    ensures
        (res.0@, res.1@) == spec_open_pod_picker(namespace@, tail_lines),
{
    let fzf_args = pod_picker_args(namespace.as_str(), tail_lines);
    let ns2 = namespace.clone();
    (KlfState::PickingPod { namespace, tail_lines }, KlfAction::PickPod { namespace: ns2, fzf_args })
}

/// Moves on once the context is settled.
fn after_context(args: Args) -> (res: (KlfState, KlfAction))
    ensures
        (res.0@, res.1@) == spec_after_context(args@),
{
    if args.prompt_namespace {
        (KlfState::PickingNamespace { tail_lines: args.tail_lines }, KlfAction::PickNamespace)
    } else {
        open_pod_picker(args.namespace, args.tail_lines)
    }
}

/// The first state and action of a `klf` run.
pub fn start(args: Args) -> (res: (KlfState, KlfAction))
    ensures
        (res.0@, res.1@) == spec_start(args@),
{
    match &args.context_keyword {
        Some(k) => {
            let keyword = k.clone();
            (KlfState::ListingContexts { keyword, args }, KlfAction::ListContexts)
        },
        None => after_context(args),
    }
}

/// The next state and action after `event`.
pub fn step(state: KlfState, event: KlfEvent) -> (res: (KlfState, KlfAction))
    requires
        expects(state@, event@),
    ensures
        (res.0@, res.1@) == spec_step(state@, event@),
{
    match (state, event) {
        (
            KlfState::ListingContexts { keyword, args },
            KlfEvent::ContextsListed { success, stdout, stderr },
        ) => {
            if !success {
                return (
                    KlfState::Done,
                    KlfAction::Fail { error: KlfError::ListContextsFailed { stderr } },
                );
            }
            match find_context(stdout.as_str(), keyword.as_str()) {
                Some(context) => (KlfState::UsingContext { args }, KlfAction::UseContext { context }),
                None => (
                    KlfState::Done,
                    KlfAction::Fail { error: KlfError::ContextNotFound { keyword } },
                ),
            }
        },
        (KlfState::UsingContext { args }, KlfEvent::ContextUsed { success }) => {
            if !success {
                (KlfState::Done, KlfAction::Fail { error: KlfError::UseContextFailed })
            } else {
                after_context(args)
            }
        },
        (KlfState::PickingNamespace { tail_lines }, KlfEvent::NamespacePicked { output }) => {
            match picked(output.as_str()) {
                Some(namespace) => open_pod_picker(namespace, tail_lines),
                None => (KlfState::Done, KlfAction::Finish { code: 0 }),
            }
        },
        (KlfState::PickingPod { namespace, tail_lines }, KlfEvent::PodPicked { output }) => {
            match pod_selection(output.as_str()) {
                Some(sel) => {
                    let label = pod_label(sel.pod.as_str());
                    let command = follow_command(sel.pod.as_str(), namespace.as_str());
                    (
                        KlfState::Done,
                        KlfAction::Follow { row: sel.row, pod: sel.pod, label, command },
                    )
                },
                None => (KlfState::Done, KlfAction::Finish { code: 0 }),
            }
        },
        (_, _) => (KlfState::Done, KlfAction::Finish { code: 0 }),
    }
}


/// Cancelling a picker (it prints nothing but whitespace) ends the run with
/// exit code 0 and streams nothing.
pub proof fn lemma_cancel_finishes(state: KlfStateView, output: Seq<char>)
    requires
        state is PickingNamespace || state is PickingPod,
        trimmed(output).len() == 0,
    ensures
        state is PickingNamespace ==> spec_step(state, KlfEventView::NamespacePicked { output })
            == (KlfStateView::Done, KlfActionView::Finish { code: 0 }),
        state is PickingPod ==> spec_step(state, KlfEventView::PodPicked { output }) == (
            KlfStateView::Done,
            KlfActionView::Finish { code: 0 },
        ),
{
}

/// After a successful context switch the run goes on exactly as a run
/// without a context keyword starts: with `-a` the namespace picker opens,
/// else the pod picker lists the pods of the given namespace.
pub proof fn lemma_switch_then_resume(args: ArgsView)
    ensures
        spec_step(KlfStateView::UsingContext { args }, KlfEventView::ContextUsed { success: true })
            == spec_start(ArgsView { context_keyword: None, ..args }),
        args.prompt_namespace ==> spec_step(
            KlfStateView::UsingContext { args },
            KlfEventView::ContextUsed { success: true },
        ) == (KlfStateView::PickingNamespace { tail_lines: args.tail_lines }, KlfActionView::PickNamespace),
        !args.prompt_namespace ==> spec_step(
            KlfStateView::UsingContext { args },
            KlfEventView::ContextUsed { success: true },
        ) == (
            KlfStateView::PickingPod { namespace: args.namespace, tail_lines: args.tail_lines },
            KlfActionView::PickPod {
                namespace: args.namespace,
                fzf_args: spec_pod_picker_args(args.namespace, args.tail_lines),
            },
        ),
{
}

/// A failed context switch ends the run with that error, whatever the
/// options.
pub proof fn lemma_switch_failure_fails(args: ArgsView)
    ensures
        spec_step(KlfStateView::UsingContext { args }, KlfEventView::ContextUsed { success: false })
            == (KlfStateView::Done, KlfActionView::Fail { error: KlfErrorView::UseContextFailed }),
{
}

/// Without a context keyword the run opens the namespace picker under `-a`,
/// else the pod picker on the given namespace; with one, it first lists the
/// contexts.
pub proof fn lemma_start_shape(args: ArgsView)
    ensures
        args.context_keyword is Some ==> spec_start(args) == (
            KlfStateView::ListingContexts { keyword: args.context_keyword->0, args },
            KlfActionView::ListContexts,
        ),
        args.context_keyword is None && args.prompt_namespace ==> spec_start(args) == (
            KlfStateView::PickingNamespace { tail_lines: args.tail_lines },
            KlfActionView::PickNamespace,
        ),
        args.context_keyword is None && !args.prompt_namespace ==> spec_start(args) == (
            KlfStateView::PickingPod { namespace: args.namespace, tail_lines: args.tail_lines },
            KlfActionView::PickPod {
                namespace: args.namespace,
                fzf_args: spec_pod_picker_args(args.namespace, args.tail_lines),
            },
        ),
{
}

/// Listing the contexts: a failed listing fails with kubectl's error
/// output; otherwise the run switches to the context found for the keyword,
/// keeping its options, or fails naming the keyword when none matches.
pub proof fn lemma_listing_outcome(
    keyword: Seq<char>,
    args: ArgsView,
    success: bool,
    stdout: Seq<char>,
    stderr: Seq<char>,
)
    ensures
        !success ==> spec_step(
            KlfStateView::ListingContexts { keyword, args },
            KlfEventView::ContextsListed { success, stdout, stderr },
        ) == (KlfStateView::Done, KlfActionView::Fail { error: KlfErrorView::ListContextsFailed { stderr } }),
        success && spec_find_context(stdout, keyword) is Some ==> spec_step(
            KlfStateView::ListingContexts { keyword, args },
            KlfEventView::ContextsListed { success, stdout, stderr },
        ) == (
            KlfStateView::UsingContext { args },
            KlfActionView::UseContext { context: spec_find_context(stdout, keyword)->0 },
        ),
        success && spec_find_context(stdout, keyword) is None ==> spec_step(
            KlfStateView::ListingContexts { keyword, args },
            KlfEventView::ContextsListed { success, stdout, stderr },
        ) == (KlfStateView::Done, KlfActionView::Fail { error: KlfErrorView::ContextNotFound { keyword } }),
{
}

/// A namespace picked in the namespace picker is the one whose pods are
/// listed next, with the same preview length.
pub proof fn lemma_namespace_pick_lists_its_pods(tail_lines: u32, output: Seq<char>)
    requires
        spec_picked(output) is Some,
    ensures
        spec_step(KlfStateView::PickingNamespace { tail_lines }, KlfEventView::NamespacePicked { output })
            == (
            KlfStateView::PickingPod { namespace: spec_picked(output)->0, tail_lines },
            KlfActionView::PickPod {
                namespace: spec_picked(output)->0,
                fzf_args: spec_pod_picker_args(spec_picked(output)->0, tail_lines),
            },
        ),
{
}

/// The stream always targets the picked pod in the namespace being browsed:
/// `kubectl logs -f <pod> -n <namespace>`, labelled by the pod's first two
/// segments.
pub proof fn lemma_follow_targets_pick(namespace: Seq<char>, tail_lines: u32, output: Seq<char>)
    requires
        spec_pod_selection(output) is Some,
    ensures
        ({
            let (row, pod) = spec_pod_selection(output)->0;
            spec_step(
                KlfStateView::PickingPod { namespace, tail_lines },
                KlfEventView::PodPicked { output },
            ) == (
                KlfStateView::Done,
                KlfActionView::Follow {
                    row,
                    pod,
                    label: spec_pod_label(pod),
                    command: seq!["kubectl"@, "logs"@, "-f"@, pod, "-n"@, namespace],
                },
            )
        }),
{
}

/// The pod label is a prefix of the pod name with at most one dash in it.
pub proof fn lemma_pod_label_prefix(pod: Seq<char>)
    ensures
        spec_pod_label(pod).len() <= pod.len(),
        spec_pod_label(pod) == pod.take(spec_pod_label(pod).len() as int),
        forall|i: int, j: int|
            0 <= i < j < spec_pod_label(pod).len() && #[trigger] spec_pod_label(pod)[i] == '-'
                ==> #[trigger] spec_pod_label(pod)[j] != '-',
{
    lemma_char_index_bounds(pod, '-', 0);
    let e1 = char_index(pod, '-', 0);
    let n = pod.len() as int;
    if e1 == n {
        assert(split_char(pod, '-') == seq![pod.subrange(0, n)]);
        assert(pod.subrange(0, n) =~= pod);
        assert(pod.take(n) =~= pod);
    } else {
        lemma_char_index_bounds(pod, '-', e1 + 1);
        let e2 = char_index(pod, '-', e1 + 1);
        let segs = split_char(pod, '-');
        assert(segs == seq![pod.subrange(0, e1)] + split_from(pod, '-', e1 + 1));
        assert(segs[0] == pod.subrange(0, e1));
        assert(split_from(pod, '-', e1 + 1)[0] == pod.subrange(e1 + 1, e2));
        assert(segs[1] == pod.subrange(e1 + 1, e2));
        let l = spec_pod_label(pod);
        assert(l =~= pod.subrange(0, e2));
        assert(l =~= pod.take(e2));
        assert forall|i: int, j: int|
            0 <= i < j < l.len() && #[trigger] l[i] == '-' implies #[trigger] l[j] != '-' by {
            assert(l[i] == pod[i]);
            assert(l[j] == pod[j]);
            if i < e1 {
            } else if i == e1 {
            } else {
            }
        }
    }
}

} // verus!
