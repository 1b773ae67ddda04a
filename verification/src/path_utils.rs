//! Request-path normalisation and segment-aware prefix matching.
use vstd::prelude::*;
use crate::text::{chars_of, is_space, string_from_chars, string_from_range, trim, trim_bounds, trim_end, trim_start};

verus! {

/// `s` without any trailing `'/'` (`str::trim_end_matches('/')`).
pub open spec fn strip_trailing_slashes(s: Seq<char>) -> Seq<char>
    decreases s.len(),
{
    if s.len() > 0 && s.last() == '/' {
        strip_trailing_slashes(s.drop_last())
    } else {
        s
    }
}

/// The trimmed path with a leading `'/'` added where it has none.
pub open spec fn with_leading_slash(t: Seq<char>) -> Seq<char> {
    if t.len() > 0 && t[0] == '/' {
        t
    } else {
        seq!['/'] + t
    }
}

/// The normal form of a path: trimmed of white space, `"/"` when nothing is
/// left, with a leading `'/'`, and without trailing `'/'` unless it is `"/"`.
pub open spec fn normalized_path(path: Seq<char>) -> Seq<char> {
    let t = trim(path);
    if t.len() == 0 {
        seq!['/']
    } else {
        let w = with_leading_slash(t);
        if w.len() > 1 && w.last() == '/' {
            strip_trailing_slashes(w)
        } else {
            w
        }
    }
}

/// Whether `prefix` covers `path` as whole segments: `"/"` covers every path,
/// otherwise `path` starts with `prefix` and either ends there or goes on
/// with a `'/'`.
pub open spec fn has_prefix_segment(path: Seq<char>, prefix: Seq<char>) -> bool {
    ||| prefix == seq!['/']
    ||| {
        &&& prefix.len() <= path.len()
        &&& path.subrange(0, prefix.len() as int) == prefix
        &&& (path.len() == prefix.len() || path[prefix.len() as int] == '/')
    }
}

/// Normalises a request path (see [`normalized_path`]).
pub fn normalize_path(path: &str) -> (res: String)
    ensures
        res@ == normalized_path(path@),
{
    let chars = chars_of(path);
    let (lo, hi) = trim_bounds(&chars);
    let ghost t = trim(path@);
    if lo == hi {
        let mut root = String::new();
        crate::text::push_char(&mut root, '/');
        assert(root@ =~= seq!['/']);
        return root;
    }
    let mut w: Vec<char> = Vec::new();
    if chars[lo] != '/' {
        w.push('/');
    }
    let mut i = lo;
    while i < hi
        invariant
            lo <= i <= hi <= chars@.len(),
            chars@.subrange(lo as int, hi as int) == t,
            w@ == if chars@[lo as int] == '/' { chars@.subrange(lo as int, i as int) } else { seq!['/'] + chars@.subrange(lo as int, i as int) },
        decreases hi - i,
    {
        w.push(chars[i]);
        assert(chars@.subrange(lo as int, i + 1) =~= chars@.subrange(lo as int, i as int).push(chars@[i as int]));
        i += 1;
    }
    assert(t[0] == chars@[lo as int]);
    assert(w@ =~= with_leading_slash(t));
    if w.len() > 1 && w[w.len() - 1] == '/' {
        let mut end = w.len();
        assert(w@.subrange(0, end as int) =~= w@);
        while end > 0 && w[end - 1] == '/'
            invariant
                end <= w@.len(),
                strip_trailing_slashes(w@) == strip_trailing_slashes(w@.subrange(0, end as int)),
            decreases end,
        {
            assert(w@.subrange(0, end as int).drop_last() =~= w@.subrange(0, end - 1));
            end -= 1;
        }
        string_from_range(&w, 0, end)
    } else {
        string_from_chars(&w)
    }
}

/// Whether `prefix` covers `path` as whole segments (see [`has_prefix_segment`]).
pub fn path_has_prefix_segment(path: &str, prefix: &str) -> (res: bool)
    ensures
        res == has_prefix_segment(path@, prefix@),
{
    let p = chars_of(path);
    let q = chars_of(prefix);
    if q.len() == 1 && q[0] == '/' {
        assert(q@ =~= seq!['/']);
        return true;
    }
    assert(q@ != seq!['/']);
    if q.len() > p.len() {
        return false;
    }
    let mut i: usize = 0;
    while i < q.len()
        invariant
            q@.len() <= p@.len(),
            p@ == path@,
            q@ == prefix@,
            q@ != seq!['/'],
            i <= q@.len(),
            forall|j: int| 0 <= j < i ==> p@[j] == q@[j],
        decreases q.len() - i,
    {
        if p[i] != q[i] {
            assert(p@.subrange(0, q@.len() as int)[i as int] != q@[i as int]);
            assert(p@.subrange(0, q@.len() as int) != q@);
            return false;
        }
        i += 1;
    }
    assert(p@.subrange(0, q@.len() as int) =~= q@);
    p.len() == q.len() || p[q.len()] == '/'
}

/// Removing trailing `'/'` leaves a prefix of `s` that does not end with `'/'`.
proof fn lemma_strip_trailing_slashes(s: Seq<char>)
    ensures
        strip_trailing_slashes(s).len() <= s.len(),
        strip_trailing_slashes(s) == s.subrange(0, strip_trailing_slashes(s).len() as int),
        strip_trailing_slashes(s).len() > 0 ==> strip_trailing_slashes(s).last() != '/',
    decreases s.len(),
{
    if s.len() > 0 && s.last() == '/' {
        lemma_strip_trailing_slashes(s.drop_last());
        let r = strip_trailing_slashes(s.drop_last());
        assert(s.drop_last().subrange(0, r.len() as int) =~= s.subrange(0, r.len() as int));
    } else {
        assert(s.subrange(0, s.len() as int) =~= s);
    }
}

/// A normalised path is empty or starts with `'/'`, and ends with `'/'` only
/// when it is `"/"`.
pub proof fn lemma_normalized_path_shape(path: Seq<char>)
    ensures
        normalized_path(path).len() > 0 ==> normalized_path(path)[0] == '/',
        normalized_path(path).len() > 1 ==> normalized_path(path).last() != '/',
{
    let t = trim(path);
    if t.len() > 0 {
        let w = with_leading_slash(t);
        assert(w[0] == '/');
        if w.len() > 1 && w.last() == '/' {
            lemma_strip_trailing_slashes(w);
            let r = strip_trailing_slashes(w);
            if r.len() > 0 {
                assert(r[0] == w.subrange(0, r.len() as int)[0]);
            }
        }
    }
}

/// Normalising a normalised path changes nothing when the normal form is not
/// empty and does not end with white space.
proof fn lemma_normal_form_idempotent(path: Seq<char>)
    requires
        normalized_path(path).len() > 0,
        !is_space(normalized_path(path).last()),
    ensures
        normalized_path(normalized_path(path)) == normalized_path(path),
{
    let n = normalized_path(path);
    lemma_normalized_path_shape(path);
    assert(!is_space(n[0]));
    assert(trim_start(n) == n);
    assert(trim_end(n) == n);
    assert(trim(n) == n);
    assert(with_leading_slash(n) == n);
}

/// What is left of `s` after trailing white space is removed does not end
/// with white space.
proof fn lemma_trim_end_last(s: Seq<char>)
    ensures
        trim_end(s).len() > 0 ==> !is_space(trim_end(s).last()),
    decreases s.len(),
{
    if s.len() > 0 && is_space(s.last()) {
        lemma_trim_end_last(s.drop_last());
    }
}

/// Removing trailing `'/'` after a leading `'/'` keeps that `'/'` when
/// something other than `'/'` is left of `t`.
proof fn lemma_strip_after_slash(t: Seq<char>)
    requires
        strip_trailing_slashes(t).len() > 0,
    ensures
        strip_trailing_slashes(seq!['/'] + t) == seq!['/'] + strip_trailing_slashes(t),
    decreases t.len(),
{
    let w = seq!['/'] + t;
    assert(t.len() > 0);
    assert(w.last() == t.last());
    if t.last() == '/' {
        assert(w.drop_last() =~= seq!['/'] + t.drop_last());
        lemma_strip_after_slash(t.drop_last());
    }
}

/// Normalising a path twice gives what normalising it once gives, unless
/// what is left of the trimmed path (longer than one character) after its
/// trailing `'/'` are removed is empty or ends with white space: `"//"`
/// normalises to `""`, which normalises to `"/"`, and `"/a /"` to `"/a "`,
/// which normalises to `"/a"`.
pub proof fn lemma_normalize_idempotent(path: Seq<char>)
    requires
        trim(path).len() <= 1 || (strip_trailing_slashes(trim(path)).len() > 0
            && !is_space(strip_trailing_slashes(trim(path)).last())),
    ensures
        normalized_path(normalized_path(path)) == normalized_path(path),
{
    let t = trim(path);
    let n = normalized_path(path);
    lemma_trim_end_last(trim_start(path));
    if t.len() > 0 {
        let w = with_leading_slash(t);
        assert(w.last() == t.last());
        if w.len() > 1 && w.last() == '/' {
            if t.len() > 1 {
                if t[0] == '/' {
                    assert(w == t);
                } else {
                    lemma_strip_after_slash(t);
                    assert(n.last() == strip_trailing_slashes(t).last());
                }
            } else {
                assert(t[0] == '/');
                assert(w == t);
            }
        }
    }
    lemma_normal_form_idempotent(path);
}

/// `"/"` covers every path, and any other prefix covers a path only when the
/// path starts with it and goes on, if at all, with a `'/'`: `"/panel"`
/// covers `"/panel"` and `"/panel/api"` but not `"/panelized"`.
pub proof fn lemma_prefix_segment_boundary(path: Seq<char>, prefix: Seq<char>)
    ensures
        has_prefix_segment(path, seq!['/']),
        prefix != seq!['/'] && has_prefix_segment(path, prefix) ==> {
            &&& path.subrange(0, prefix.len() as int) == prefix
            &&& (path.len() == prefix.len() || path[prefix.len() as int] == '/')
        },
        has_prefix_segment(prefix, prefix),
{
    assert(prefix.subrange(0, prefix.len() as int) =~= prefix);
}

} // verus!
