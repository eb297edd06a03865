//! Unix paths as byte strings: joining, counting components, and the
//! extension test that picks out capture files.

use vstd::prelude::*;

verus! {

/// The path separator `/`.
pub open spec fn sep() -> u8 {
    47u8
}

/// `base.join(comp)` on Unix: an absolute `comp` replaces `base`; otherwise
/// `comp` is appended, with a `/` between unless `base` is empty or already
/// ends with one.
pub open spec fn spec_join(base: Seq<u8>, comp: Seq<u8>) -> Seq<u8> {
    if comp.len() > 0 && comp[0] == sep() {
        comp
    } else if base.len() == 0 || base.last() == sep() {
        base + comp
    } else {
        base + seq![sep()] + comp
    }
}

/// Appends the bytes of `src` to `dst`.
pub fn extend_bytes(dst: &mut Vec<u8>, src: &[u8])
    ensures
        final(dst)@ == old(dst)@ + src@,
{
    let n = src.len();
    for i in 0..n
        invariant
            n == src@.len(),
            dst@ == old(dst)@ + src@.take(i as int),
    {
        dst.push(src[i]);
        assert(src@.take(i + 1) =~= src@.take(i as int).push(src@[i as int]));
    }
    assert(src@.take(n as int) =~= src@);
}

/// The byte strings held in `v`.
pub open spec fn byte_strings(v: Seq<Vec<u8>>) -> Seq<Seq<u8>> {
    Seq::new(v.len(), |i: int| v[i]@)
}

/// Copies a byte string.
pub fn copy_bytes(src: &[u8]) -> (res: Vec<u8>)
    ensures
        res@ == src@,
{
    let mut out: Vec<u8> = Vec::new();
    extend_bytes(&mut out, src);
    assert(out@ =~= src@);
    out
}

/// Joins `comp` onto `base` as `Path::join` does.
pub fn join(base: &[u8], comp: &[u8]) -> (res: Vec<u8>)
    ensures
        res@ == spec_join(base@, comp@),
{
    let mut out: Vec<u8> = Vec::new();
    if comp.len() > 0 && comp[0] == 47u8 {
        extend_bytes(&mut out, comp);
        assert(out@ =~= comp@);
        return out;
    }
    extend_bytes(&mut out, base);
    if base.len() > 0 && base[base.len() - 1] != 47u8 {
        out.push(47u8);
    }
    extend_bytes(&mut out, comp);
    assert(out@ =~= spec_join(base@, comp@));
    out
}

/// `p` begins with a root `/`.
pub open spec fn has_root(p: Seq<u8>) -> bool {
    p.len() > 0 && p[0] == sep()
}

/// `p` begins with a `.` component (`.` alone, or `./...`), which
/// `Path::components` reports as the current directory.
pub open spec fn has_leading_cur_dir(p: Seq<u8>) -> bool {
    p.len() > 0 && p[0] == 46u8 && (p.len() == 1 || p[1] == sep())
}

/// A named component (anything but `.`) of `p` begins at byte `i`.
pub open spec fn named_component_at(p: Seq<u8>, i: int) -> bool {
    &&& 0 <= i < p.len()
    &&& p[i] != sep()
    &&& (i == 0 || p[i - 1] == sep())
    &&& !(p[i] == 46u8 && (i + 1 == p.len() || p[i + 1] == sep()))
}

/// The number of named components of `p` that begin before byte `n`.
pub open spec fn named_components_before(p: Seq<u8>, n: int) -> nat
    decreases n,
{
    if n <= 0 {
        0
    } else {
        named_components_before(p, n - 1) + if named_component_at(p, n - 1) {
            1nat
        } else {
            0nat
        }
    }
}

/// `Path::components().count()` on Unix: the root, a leading `.`, and every
/// named component; empty and inner `.` components are not counted.
pub open spec fn spec_component_count(p: Seq<u8>) -> nat {
    (if has_root(p) { 1nat } else { 0nat }) + (if has_leading_cur_dir(p) { 1nat } else { 0nat })
        + named_components_before(p, p.len() as int)
}

proof fn lemma_named_components_bounded(p: Seq<u8>, n: int)
    requires
        1 <= n,
    ensures
        named_components_before(p, n) <= named_components_before(p, 1) + n - 1,
    decreases n,
{
    if n > 1 {
        lemma_named_components_bounded(p, n - 1);
    }
}

/// Counts the components of a path as `Path::components` yields them.
pub fn component_count(p: &[u8]) -> (res: usize)
    ensures
        res == spec_component_count(p@),
{
    let n = p.len();
    let mut count: usize = 0;
    for i in 0..n
        invariant
            n == p@.len(),
            count == named_components_before(p@, i as int),
    {
        proof {
            if i > 0 {
                lemma_named_components_bounded(p@, i as int);
                assert(named_components_before(p@, 0) == 0);
            }
            assert(count <= i);
        }
        let starts = p[i] != 47u8 && (i == 0 || p[i - 1] == 47u8) && !(p[i] == 46u8 && (i + 1
            == n || p[i + 1] == 47u8));
        if starts {
            count = count + 1;
        }
    }
    let root: usize = if n > 0 && p[0] == 47u8 { 1 } else { 0 };
    let cur: usize = if n > 0 && p[0] == 46u8 && (n == 1 || p[1] == 47u8) { 1 } else { 0 };
    proof {
        if n > 0 {
            lemma_named_components_bounded(p@, n as int);
            assert(named_components_before(p@, 0) == 0);
        }
    }
    count + root + cur
}

/// The file name ends in a `.log` extension as `Path::extension` reads it:
/// `log` after the last dot, with something before that dot.
pub open spec fn has_log_extension(name: Seq<u8>) -> bool {
    &&& name.len() >= 5
    &&& name[name.len() - 4] == 46u8
    &&& name[name.len() - 3] == 108u8
    &&& name[name.len() - 2] == 111u8
    &&& name[name.len() - 1] == 103u8
}

/// Decides `has_log_extension`.
pub fn log_extension(name: &[u8]) -> (b: bool)
    ensures
        b == has_log_extension(name@),
{
    let n = name.len();
    n >= 5 && name[n - 4] == 46u8 && name[n - 3] == 108u8 && name[n - 2] == 111u8 && name[n - 1]
        == 103u8
}

/// `name` is a single named path component: non-empty, no `/`, not `.`.
pub open spec fn is_plain_name(name: Seq<u8>) -> bool {
    &&& name.len() > 0
    &&& forall|i: int| 0 <= i < name.len() ==> #[trigger] name[i] != sep()
    &&& name != seq![46u8]
}

/// Named components of `p` that begin before `n` only depend on `p[..n+1]`.
proof fn lemma_named_prefix(p: Seq<u8>, q: Seq<u8>, n: int)
    requires
        0 <= n,
        n < p.len(),
        n < q.len(),
        forall|i: int| 0 <= i <= n ==> p[i] == q[i],
    ensures
        named_components_before(p, n) == named_components_before(q, n),
    decreases n,
{
    if n > 0 {
        lemma_named_prefix(p, q, n - 1);
        assert(named_component_at(p, n - 1) == named_component_at(q, n - 1));
    }
}

/// No named component begins in `p[from..n]` when every byte there follows
/// another non-separator byte.
proof fn lemma_named_none_inside(p: Seq<u8>, from: int, n: int)
    requires
        1 <= from <= n <= p.len(),
        forall|i: int| from - 1 <= i < n ==> #[trigger] p[i] != sep(),
    ensures
        named_components_before(p, n) == named_components_before(p, from),
    decreases n - from,
{
    if n > from {
        lemma_named_none_inside(p, from, n - 1);
        assert(p[n - 2] != sep());
        assert(!named_component_at(p, n - 1));
    }
}

/// Joining a plain name onto a path adds exactly one component.
pub proof fn lemma_join_adds_component(base: Seq<u8>, name: Seq<u8>)
    requires
        is_plain_name(name),
    ensures
        spec_component_count(spec_join(base, name)) == spec_component_count(base) + 1,
{
    let p = spec_join(base, name);
    let m = name.len() as int;
    assert(name[0] != sep());
    if base.len() == 0 {
        assert(p =~= name);
        assert(!has_root(p));
        assert(!has_leading_cur_dir(p)) by {
            if has_leading_cur_dir(p) {
                if p.len() == 1 {
                    assert(name =~= seq![46u8]);
                } else {
                    assert(p[1] != sep());
                }
            }
        }
        assert(named_component_at(p, 0));
        assert(named_components_before(p, 1) == 1) by {
            assert(named_components_before(p, 0) == 0);
        }
        lemma_named_none_inside(p, 1, m);
        assert(named_components_before(base, 0) == 0);
    } else {
        let b = base.len() as int;
        let start = if base.last() == sep() { b } else { b + 1 };
        assert(p.len() == start + m);
        assert(forall|i: int| 0 <= i < b ==> p[i] == base[i]);
        assert(p[start - 1] == sep());
        assert(forall|i: int| 0 <= i < m ==> #[trigger] p[start + i] == name[i]);
        // The components of `base` are unchanged.
        assert(named_components_before(p, b) == named_components_before(base, b)) by {
            if b >= 1 {
                lemma_named_prefix(p, base.push(sep()), b - 1);
                lemma_named_prefix(base, base.push(sep()), b - 1);
                assert(named_component_at(p, b - 1) == named_component_at(base, b - 1));
            }
        }
        assert(has_root(p) == has_root(base));
        assert(has_leading_cur_dir(p) == has_leading_cur_dir(base)) by {
            if b == 1 {
                assert(p[1] == sep() || (start == 1 && p[1] == name[0]));
            }
        }
        if start == b + 1 {
            assert(!named_component_at(p, b));
            assert(named_components_before(p, b + 1) == named_components_before(p, b));
        }
        assert(named_component_at(p, start)) by {
            assert(p[start] == name[0]);
            if m == 1 {
                assert(name[0] != 46u8) by {
                    if name[0] == 46u8 {
                        assert(name =~= seq![46u8]);
                    }
                }
            } else {
                assert(p[start + 1] == name[1]);
            }
        }
        assert(named_components_before(p, start + 1) == named_components_before(p, start) + 1);
        assert forall|i: int| start + 1 - 1 <= i < start + m implies #[trigger] p[i] != sep() by {
            assert(p[i] == name[i - start]);
        }
        lemma_named_none_inside(p, start + 1, start + m);
    }
}

} // verus!
