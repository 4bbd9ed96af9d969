//! Path resolution for log streams.
//!
//! A stream identity carries two producer-supplied, untrusted segments
//! (routing key and attempt id). Each is validated as a relative path made
//! only of plain names: empty paths, absolute prefixes, `.` and `..`
//! components are rejected before any path is built. The resolved location is
//! the configured root joined with both segments, re-checked to still lie
//! under the root. Paths are handled as byte strings with `/` as separator.

use vstd::prelude::*;

verus! {

pub const SLASH: u8 = 0x2f;
pub const DOT: u8 = 0x2e;

/// Why a resolution was refused.
#[derive(Debug, Clone, Copy, PartialEq, Eq, Structural)]
pub enum PathError {
    /// The segment has no path components at all (it is empty).
    NoComponents,
    /// The segment contains a component that is not a plain name.
    InvalidComponent,
    /// The joined path escaped the configured root (defense in depth; proved
    /// unreachable for paths this module builds).
    OutsideRoot,
}

/// `[i, j)` delimits one `/`-separated piece of `s` (possibly empty when
/// separators repeat).
pub open spec fn is_piece(s: Seq<u8>, i: int, j: int) -> bool {
    &&& 0 <= i <= j <= s.len()
    &&& (i == 0 || s[i - 1] == SLASH)
    &&& (j == s.len() || s[j] == SLASH)
    &&& forall|k: int| i <= k < j ==> s[k] != SLASH
}

/// The piece is `..`, which would climb out of the root.
pub open spec fn piece_is_parent(s: Seq<u8>, i: int, j: int) -> bool {
    j - i == 2 && s[i] == DOT && s[i + 1] == DOT
}

/// The piece is `.`; as the leading piece it forms a current-directory
/// component (later `.` pieces are normalized away and are harmless).
pub open spec fn piece_is_cur(s: Seq<u8>, i: int, j: int) -> bool {
    j - i == 1 && s[i] == DOT
}

/// The piece is acceptable inside a validated segment.
pub open spec fn piece_ok(s: Seq<u8>, i: int, j: int) -> bool {
    &&& !piece_is_parent(s, i, j)
    &&& !(i == 0 && piece_is_cur(s, i, j))
}

/// A segment is valid when it is non-empty, relative, and every piece is a
/// plain name (or a normalized-away `.`/empty piece).
pub open spec fn valid_segment(s: Seq<u8>) -> bool {
    &&& s.len() > 0
    &&& s[0] != SLASH
    &&& forall|i: int, j: int| is_piece(s, i, j) ==> piece_ok(s, i, j)
}

/// The exact verdict `validate_path_segment` returns on a segment.
pub open spec fn spec_validate(s: Seq<u8>) -> Result<(), PathError> {
    if s.len() == 0 {
        Err(PathError::NoComponents)
    } else if !valid_segment(s) {
        Err(PathError::InvalidComponent)
    } else {
        Ok(())
    }
}

/// Checks that a producer-supplied segment decomposes into plain path
/// components only: rejects the empty segment, absolute prefixes, `..`
/// anywhere, and a leading `.` component.
pub fn validate_path_segment(segment: &[u8]) -> (r: Result<(), PathError>)
    ensures
        r == spec_validate(segment@),
        r is Ok <==> valid_segment(segment@),
{
    let n = segment.len();
    if n == 0 {
        return Err(PathError::NoComponents);
    }
    if segment[0] == SLASH {
        proof {
            assert(!valid_segment(segment@));
        }
        return Err(PathError::InvalidComponent);
    }
    let mut start: usize = 0;
    let mut i: usize = 0;
    while i < n
        invariant
            0 < n == segment@.len(),
            segment@[0] != SLASH,
            0 <= start <= i <= n,
            start == 0 || segment@[start - 1] == SLASH,
            forall|k: int| start <= k < i ==> segment@[k] != SLASH,
            forall|p: int, q: int|
                is_piece(segment@, p, q) && q < i ==> piece_ok(segment@, p, q),
        decreases n - i,
    {
        if segment[i] == SLASH {
            proof {
                assert(is_piece(segment@, start as int, i as int));
            }
            if i - start == 2 && segment[start] == DOT && segment[start + 1] == DOT {
                proof {
                    assert(piece_is_parent(segment@, start as int, i as int));
                    assert(!valid_segment(segment@));
                }
                return Err(PathError::InvalidComponent);
            }
            if start == 0 && i == 1 && segment[0] == DOT {
                proof {
                    assert(piece_is_cur(segment@, 0, 1));
                    assert(!valid_segment(segment@));
                }
                return Err(PathError::InvalidComponent);
            }
            proof {
                assert forall|p: int, q: int|
                    is_piece(segment@, p, q) && q < i + 1 implies piece_ok(
                    segment@,
                    p,
                    q,
                ) by {
                    if q == i {
                        lemma_piece_start_unique(segment@, p, start as int, q);
                    }
                }
            }
            start = i + 1;
        }
        i += 1;
    }
    proof {
        assert(is_piece(segment@, start as int, n as int));
    }
    if n - start == 2 && segment[start] == DOT && segment[start + 1] == DOT {
        proof {
            assert(piece_is_parent(segment@, start as int, n as int));
            assert(!valid_segment(segment@));
        }
        return Err(PathError::InvalidComponent);
    }
    if start == 0 && n == 1 && segment[0] == DOT {
        proof {
            assert(piece_is_cur(segment@, 0, 1));
            assert(!valid_segment(segment@));
        }
        return Err(PathError::InvalidComponent);
    }
    proof {
        assert forall|p: int, q: int| is_piece(segment@, p, q) implies piece_ok(
            segment@,
            p,
            q,
        ) by {
            if q == n {
                lemma_piece_start_unique(segment@, p, start as int, q);
            }
        }
        assert(valid_segment(segment@));
    }
    Ok(())
}

/// Two pieces that end at the same index start at the same index.
proof fn lemma_piece_start_unique(s: Seq<u8>, p: int, p2: int, q: int)
    requires
        is_piece(s, p, q),
        is_piece(s, p2, q),
    ensures
        p == p2,
{
    if p < p2 {
        assert(s[p2 - 1] == SLASH);
    }
    if p2 < p {
        assert(s[p - 1] == SLASH);
    }
}

/// How a relative segment is appended below a base path: a separator is
/// inserted unless the base is empty or already ends with one.
pub open spec fn spec_join(base: Seq<u8>, seg: Seq<u8>) -> Seq<u8> {
    if base.len() == 0 {
        seg
    } else if base.last() == SLASH {
        base + seg
    } else {
        base + seq![SLASH] + seg
    }
}

fn join(base: &[u8], seg: &[u8]) -> (r: Vec<u8>)
    ensures
        r@ == spec_join(base@, seg@),
{
    let mut out: Vec<u8> = Vec::new();
    out.extend_from_slice(base);
    if base.len() > 0 && base[base.len() - 1] != SLASH {
        out.push(SLASH);
    }
    out.extend_from_slice(seg);
    proof {
        assert(out@ =~= spec_join(base@, seg@));
    }
    out
}

/// The containment re-check: `p` extends `root` and continues at a component
/// boundary (or `root` is empty or separator-terminated).
pub open spec fn spec_path_prefix(root: Seq<u8>, p: Seq<u8>) -> bool {
    &&& p.len() >= root.len()
    &&& p.subrange(0, root.len() as int) == root
    &&& (root.len() == 0 || root.last() == SLASH || p.len() == root.len() || p[root.len() as int]
        == SLASH)
}

fn is_path_prefix(root: &[u8], p: &[u8]) -> (b: bool)
    ensures
        b == spec_path_prefix(root@, p@),
{
    let rn = root.len();
    if p.len() < rn {
        return false;
    }
    let mut i: usize = 0;
    while i < rn
        invariant
            0 <= i <= rn == root@.len(),
            p@.len() >= rn,
            forall|k: int| 0 <= k < i ==> p@[k] == root@[k],
        decreases rn - i,
    {
        if p[i] != root[i] {
            proof {
                assert(p@.subrange(0, rn as int)[i as int] != root@[i as int]);
            }
            return false;
        }
        i += 1;
    }
    proof {
        assert(p@.subrange(0, rn as int) =~= root@);
    }
    if rn == 0 || root[rn - 1] == SLASH || p.len() == rn {
        true
    } else {
        p[rn] == SLASH
    }
}

/// The exact result of resolving the log path for a stream: both segments are
/// validated (routing key first), then joined below the root.
pub open spec fn spec_path_for_log(root: Seq<u8>, rk: Seq<u8>, aid: Seq<u8>) -> Result<
    Seq<u8>,
    PathError,
> {
    match spec_validate(rk) {
        Err(e) => Err(e),
        Ok(_) => match spec_validate(aid) {
            Err(e) => Err(e),
            Ok(_) => Ok(spec_join(spec_join(root, rk), aid)),
        },
    }
}

/// Joining keeps the base as a prefix, at a component boundary.
pub proof fn lemma_join_prefix(base: Seq<u8>, seg: Seq<u8>)
    ensures
        spec_join(base, seg).len() >= base.len() + seg.len(),
        spec_path_prefix(base, spec_join(base, seg)),
{
    assert(spec_join(base, seg).subrange(0, base.len() as int) =~= base);
}

/// Prefixes compose: extending a path below `base` keeps `root` a prefix.
pub proof fn lemma_path_prefix_trans(root: Seq<u8>, base: Seq<u8>, p: Seq<u8>)
    requires
        spec_path_prefix(root, base),
        spec_path_prefix(base, p),
    ensures
        spec_path_prefix(root, p),
{
    assert(p.subrange(0, root.len() as int) =~= base.subrange(0, root.len() as int));
}

/// Law: for any root and any two valid segments, resolution succeeds and the
/// resolved path lies inside the root: the root is a strict prefix and the
/// path continues at a component boundary.
pub proof fn lemma_resolved_path_within_root(root: Seq<u8>, rk: Seq<u8>, aid: Seq<u8>)
    requires
        valid_segment(rk),
        valid_segment(aid),
    ensures
        spec_path_for_log(root, rk, aid) is Ok,
        spec_path_for_log(root, rk, aid)->Ok_0.len() > root.len(),
        spec_path_prefix(root, spec_path_for_log(root, rk, aid)->Ok_0),
{
    let base = spec_join(root, rk);
    let p = spec_join(base, aid);
    lemma_join_prefix(root, rk);
    lemma_join_prefix(base, aid);
    lemma_path_prefix_trans(root, base, p);
}

/// End of the file-name span of `p`, scanning down from `end`: trailing
/// separators and trailing `.` pieces are not part of the file name.
pub open spec fn file_end(s: Seq<u8>, end: int) -> int
    decreases end,
{
    if end <= 0 {
        0
    } else if s[end - 1] == SLASH {
        file_end(s, end - 1)
    } else if s[end - 1] == DOT && (end - 1 == 0 || s[end - 2] == SLASH) {
        file_end(s, end - 1)
    } else {
        end
    }
}

/// Start of the file-name span that ends at `i`: the byte after the last
/// separator before `i`.
pub open spec fn file_start(s: Seq<u8>, i: int) -> int
    decreases i,
{
    if i <= 0 {
        0
    } else if s[i - 1] == SLASH {
        i
    } else {
        file_start(s, i - 1)
    }
}

/// Index of the last `.` strictly inside the file name `[fs, i)` (a leading
/// `.` does not begin an extension), or -1 when the name has no extension.
pub open spec fn cut_point(s: Seq<u8>, fs: int, i: int) -> int
    decreases i - fs,
{
    if i <= fs + 1 {
        -1
    } else if s[i - 1] == DOT {
        i - 1
    } else {
        cut_point(s, fs, i - 1)
    }
}

/// The sidecar suffix `.metadata.json` as bytes.
pub open spec fn meta_suffix() -> Seq<u8> {
    seq![DOT, 0x6du8, 0x65u8, 0x74u8, 0x61u8, 0x64u8, 0x61u8, 0x74u8, 0x61u8, DOT, 0x6au8, 0x73u8, 0x6fu8, 0x6eu8]
}

/// The metadata path for a log path: the extension of its file name (if any)
/// is replaced by the sidecar suffix, as `set_extension` would do.
pub open spec fn spec_metadata_path(p: Seq<u8>) -> Seq<u8> {
    let fe = file_end(p, p.len() as int);
    let fs = file_start(p, fe);
    let d = cut_point(p, fs, fe);
    let cut = if d >= 0 {
        d
    } else {
        fe
    };
    p.subrange(0, cut) + meta_suffix()
}

/// The exact result of resolving the metadata sidecar location: the log path
/// with its extension replaced by the sidecar suffix.
pub open spec fn spec_path_for_metadata(root: Seq<u8>, rk: Seq<u8>, aid: Seq<u8>) -> Result<
    Seq<u8>,
    PathError,
> {
    match spec_path_for_log(root, rk, aid) {
        Err(e) => Err(e),
        Ok(p) => Ok(spec_metadata_path(p)),
    }
}

/// Rewrites a resolved log path into its metadata sidecar path.
#[verifier::loop_isolation(false)]
pub fn build_metadata_path(path: &[u8]) -> (r: Vec<u8>)
    ensures
        r@ == spec_metadata_path(path@),
{
    let ghost s = path@;
    let n = path.len();
    let mut fe: usize = n;
    while fe > 0 && (path[fe - 1] == SLASH || (path[fe - 1] == DOT && (fe - 1 == 0 || path[fe
        - 2] == SLASH)))
        invariant
            0 <= fe <= n == s.len(),
            file_end(s, n as int) == file_end(s, fe as int),
        decreases fe,
    {
        fe = fe - 1;
    }
    proof {
        assert(file_end(s, n as int) == fe as int);
    }
    let mut fs: usize = fe;
    while fs > 0 && path[fs - 1] != SLASH
        invariant
            fs <= fe,
            fe <= n,
            n == s.len(),
            file_start(s, fe as int) == file_start(s, fs as int),
        decreases fs,
    {
        proof {
            assert(file_start(s, fs as int) == file_start(s, fs as int - 1));
        }
        fs = fs - 1;
    }
    proof {
        assert(file_start(s, fe as int) == fs as int);
    }
    let mut c: usize = fe;
    while c >= 1 && c - 1 > fs && path[c - 1] != DOT
        invariant
            fs <= fe,
            fe <= n,
            n == s.len(),
            c <= fe,
            cut_point(s, fs as int, fe as int) == cut_point(s, fs as int, c as int),
        decreases c,
    {
        proof {
            assert(cut_point(s, fs as int, c as int) == cut_point(s, fs as int, c as int - 1));
        }
        c = c - 1;
    }
    let cut: usize = if c >= 1 && c - 1 > fs {
        proof {
            assert(cut_point(s, fs as int, fe as int) == c - 1);
        }
        c - 1
    } else {
        proof {
            assert(cut_point(s, fs as int, fe as int) == -1);
        }
        fe
    };
    let mut out: Vec<u8> = Vec::new();
    out.extend_from_slice(vstd::slice::slice_subrange(path, 0, cut));
    out.push(DOT);
    out.push(0x6d);
    out.push(0x65);
    out.push(0x74);
    out.push(0x61);
    out.push(0x64);
    out.push(0x61);
    out.push(0x74);
    out.push(0x61);
    out.push(DOT);
    out.push(0x6a);
    out.push(0x73);
    out.push(0x6f);
    out.push(0x6e);
    proof {
        assert(out@ =~= spec_metadata_path(s));
    }
    out
}

/// Below a stop position `m` (one whose preceding byte is neither a
/// separator nor a lone `.` piece), the file-name span cannot reach.
proof fn lemma_file_end_ge(p: Seq<u8>, m: int, end: int)
    requires
        1 <= m <= end <= p.len(),
        p[m - 1] != SLASH,
        !(p[m - 1] == DOT && (m - 1 == 0 || p[m - 2] == SLASH)),
    ensures
        m <= file_end(p, end),
    decreases end,
{
    if end > m {
        if p[end - 1] == SLASH || (p[end - 1] == DOT && (end - 1 == 0 || p[end - 2] == SLASH)) {
            lemma_file_end_ge(p, m, end - 1);
        }
    }
}

/// The file-name span never reaches past the scan start.
proof fn lemma_file_end_le(p: Seq<u8>, end: int)
    requires
        0 <= end,
    ensures
        file_end(p, end) <= end,
    decreases end,
{
    if end > 0 {
        lemma_file_end_le(p, end - 1);
    }
}

/// The file name cannot begin before the separator at `a0 - 1`.
proof fn lemma_file_start_ge(p: Seq<u8>, a0: int, i: int)
    requires
        1 <= a0 <= i <= p.len(),
        p[a0 - 1] == SLASH,
    ensures
        a0 <= file_start(p, i) <= i,
    decreases i - a0,
{
    if i > a0 && p[i - 1] != SLASH {
        lemma_file_start_ge(p, a0, i - 1);
    }
}

/// The extension cut, when found, lies strictly inside `(fs, i)`.
proof fn lemma_cut_point_range(p: Seq<u8>, fs: int, i: int)
    ensures
        cut_point(p, fs, i) == -1 || fs + 1 <= cut_point(p, fs, i) < i,
    decreases i - fs,
{
    if i > fs + 1 && p[i - 1] != DOT {
        lemma_cut_point_range(p, fs, i - 1);
    }
}

/// Law: for valid segments the metadata sidecar path, like the log path,
/// lies strictly inside the root: replacing the file name's extension never
/// cuts back past the attempt segment, let alone the root.
pub proof fn lemma_metadata_path_within_root(root: Seq<u8>, rk: Seq<u8>, aid: Seq<u8>)
    requires
        valid_segment(rk),
        valid_segment(aid),
    ensures
        spec_path_for_metadata(root, rk, aid) is Ok,
        spec_path_prefix(root, spec_path_for_metadata(root, rk, aid)->Ok_0),
{
    let base = spec_join(root, rk);
    let p = spec_join(base, aid);
    lemma_resolved_path_within_root(root, rk, aid);
    let a0 = p.len() - aid.len();
    assert(base.len() >= 1 + root.len() || root.len() == 0) by {
        lemma_join_prefix(root, rk);
    }
    assert(a0 >= 1 && p[a0 - 1] == SLASH && p.subrange(a0, p.len() as int) =~= aid) by {
        assert(base.len() >= 1);
        if base.last() == SLASH {
            assert(p =~= base + aid);
        } else {
            assert(p =~= base + seq![SLASH] + aid);
        }
    }
    // A stop position just inside the attempt segment: its first byte, or
    // its second when the segment starts with a dot.
    let m = if aid[0] == DOT {
        a0 + 2
    } else {
        a0 + 1
    };
    if aid[0] == DOT {
        // A lone or leading `.` component would have been rejected.
        assert(aid.len() >= 2 && aid[1] != SLASH) by {
            if aid.len() == 1 {
                assert(is_piece(aid, 0, 1));
            } else if aid[1] == SLASH {
                assert(is_piece(aid, 0, 1));
            }
        }
        assert(p[m - 1] == aid[1] && p[m - 2] == aid[0]);
    } else {
        assert(p[m - 1] == aid[0] && p[m - 2] == SLASH);
    }
    lemma_file_end_ge(p, m, p.len() as int);
    lemma_file_end_le(p, p.len() as int);
    let fe = file_end(p, p.len() as int);
    lemma_file_start_ge(p, a0, fe);
    let fs = file_start(p, fe);
    lemma_cut_point_range(p, fs, fe);
    let d = cut_point(p, fs, fe);
    let cut = if d >= 0 {
        d
    } else {
        fe
    };
    assert(cut >= a0 + 1);
    let meta = spec_metadata_path(p);
    assert(meta =~= p.subrange(0, cut) + meta_suffix());
    let rl = root.len() as int;
    assert(cut > rl);
    assert(meta.len() == cut + meta_suffix().len());
    assert forall|k: int| 0 <= k < rl implies meta[k] == p[k] by {
        assert(meta[k] == p.subrange(0, cut)[k]);
    }
    assert(meta.subrange(0, rl) =~= p.subrange(0, rl));
    assert(spec_path_prefix(root, meta));
}

/// Resolves the on-disk log location for a stream identity: validates both
/// untrusted segments, joins them below `root`, and re-checks containment.
/// No filesystem access happens here; on any failure no path is produced.
pub fn build_log_path(root: &[u8], routing_key: &[u8], attempt_id: &[u8]) -> (r: Result<
    Vec<u8>,
    PathError,
>)
    ensures
        match r {
            Ok(p) => spec_path_for_log(root@, routing_key@, attempt_id@) == Ok::<_, PathError>(p@)
                && spec_path_prefix(root@, p@),
            Err(e) => spec_path_for_log(root@, routing_key@, attempt_id@) == Err::<Seq<u8>, _>(e),
        },
{
    if let Err(e) = validate_path_segment(routing_key) {
        return Err(e);
    }
    let base = join(root, routing_key);
    if let Err(e) = validate_path_segment(attempt_id) {
        return Err(e);
    }
    let location = join(base.as_slice(), attempt_id);
    proof {
        lemma_resolved_path_within_root(root@, routing_key@, attempt_id@);
    }
    if is_path_prefix(root, location.as_slice()) {
        Ok(location)
    } else {
        Err(PathError::OutsideRoot)
    }
}

} // verus!
