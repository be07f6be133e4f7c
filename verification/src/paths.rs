//! The path mapper.
//!
//! Paths are plain character strings with `/` as the separator. The
//! mapper computes the destination for a source file — the destination
//! root extended by the source path's suffix under the source root — and
//! rewrites the final extension of a destination that will be transcoded.
//! It performs no I/O.

use vstd::prelude::*;

use crate::text::{chars_to_string, lower, str_to_chars, to_lowercase};

verus! {

/// The index of the last occurrence of `c` in `s`.
pub open spec fn rfind(s: Seq<char>, c: char) -> Option<int>
    decreases s.len(),
{
    if s.len() == 0 {
        None
    } else if s.last() == c {
        Some(s.len() - 1)
    } else {
        rfind(s.drop_last(), c)
    }
}

/// Where the final path component starts: right after the last `/`, or
/// at the start of the path.
pub open spec fn name_start(p: Seq<char>) -> int {
    match rfind(p, '/') {
        Some(i) => i + 1,
        None => 0,
    }
}

/// The index of the `.` that introduces the path's extension: the last
/// `.`, provided it lies inside the final component and not at its first
/// position (a leading `.` marks a hidden file, not an extension).
pub open spec fn ext_dot(p: Seq<char>) -> Option<int> {
    match rfind(p, '.') {
        Some(d) => if d > name_start(p) {
            Some(d)
        } else {
            None
        },
        None => None,
    }
}

/// The path's extension, folded to lower case; `None` where the final
/// component has none.
pub open spec fn spec_get_format(p: Seq<char>) -> Option<Seq<char>> {
    match ext_dot(p) {
        Some(d) => Some(lower(p.skip(d + 1))),
        None => None,
    }
}

/// The path with its extension replaced by `ext` (appended where the
/// path has no extension; the extension is dropped where `ext` is
/// empty).
pub open spec fn spec_replace_extension(p: Seq<char>, ext: Seq<char>) -> Seq<char> {
    let stem = match ext_dot(p) {
        Some(d) => p.take(d),
        None => p,
    };
    if ext.len() == 0 {
        stem
    } else {
        stem + seq!['.'] + ext
    }
}

/// The path without its trailing `/` separators.
pub open spec fn drop_trailing_slashes(s: Seq<char>) -> Seq<char>
    decreases s.len(),
{
    if s.len() > 0 && s.last() == '/' {
        drop_trailing_slashes(s.drop_last())
    } else {
        s
    }
}

/// The suffix of `f` under the root `root`: empty when `f` is the root
/// itself, the remainder after the separator when `f` lies below it, and
/// nothing when `f` is outside the root.
pub open spec fn spec_path_suffix(f: Seq<char>, root: Seq<char>) -> Option<Seq<char>> {
    let r = drop_trailing_slashes(root);
    if f == r {
        Some(Seq::<char>::empty())
    } else if f.len() > r.len() && f.take(r.len() as int) == r && f[r.len() as int] == '/' {
        Some(f.skip(r.len() as int + 1))
    } else {
        None
    }
}

/// The root `d` extended by `suffix`.
pub open spec fn spec_path_join(d: Seq<char>, suffix: Seq<char>) -> Seq<char> {
    let dd = drop_trailing_slashes(d);
    if suffix.len() == 0 {
        dd
    } else {
        dd + seq!['/'] + suffix
    }
}

/// Where `src_path` lies under `src_root`: the destination for it, that
/// is `dst_root` extended by `src_path`'s suffix under `src_root`.
pub open spec fn spec_map_dst(src_path: Seq<char>, src_root: Seq<char>, dst_root: Seq<char>) -> Option<
    Seq<char>,
> {
    match spec_path_suffix(src_path, src_root) {
        Some(sfx) => Some(spec_path_join(dst_root, sfx)),
        None => None,
    }
}

/// The index of the last occurrence of `c` in `v`.
fn rfind_exec(v: &Vec<char>, c: char) -> (r: Option<usize>)
    ensures
        match r {
            Some(i) => rfind(v@, c) == Some(i as int) && i < v@.len(),
            None => rfind(v@, c) is None,
        },
{
    let mut i: usize = v.len();
    proof {
        assert(v@.take(i as int) =~= v@);
    }
    while i > 0
        invariant
            i <= v@.len(),
            rfind(v@, c) == rfind(v@.take(i as int), c),
        decreases i,
    {
        proof {
            assert(v@.take(i as int).last() == v@[i - 1]);
            assert(v@.take(i as int).drop_last() =~= v@.take(i as int - 1));
        }
        if v[i - 1] == c {
            return Some(i - 1);
        }
        i = i - 1;
    }
    proof {
        assert(v@.take(0) =~= Seq::<char>::empty());
    }
    None
}

/// The extension of the path's final component, folded to lower case.
pub fn get_format(path: &str) -> (r: Option<String>)
    ensures
        match r {
            Some(e) => spec_get_format(path@) == Some(e@),
            None => spec_get_format(path@) is None,
        },
{
    let chars = str_to_chars(path);
    let n = chars.len();
    let ns: usize = match rfind_exec(&chars, '/') {
        Some(i) => i + 1,
        None => 0,
    };
    match rfind_exec(&chars, '.') {
        Some(d) => {
            if d > ns {
                let mut ext: Vec<char> = Vec::new();
                let mut i: usize = d + 1;
                proof {
                    assert(ext@ =~= chars@.subrange(d + 1, d + 1));
                }
                while i < n
                    invariant
                        d + 1 <= i <= n,
                        n == chars@.len(),
                        ext@ == chars@.subrange(d + 1, i as int),
                    decreases n - i,
                {
                    ext.push(chars[i]);
                    assert(ext@ =~= chars@.subrange(d + 1, i + 1));
                    i = i + 1;
                }
                assert(ext@ =~= chars@.skip(d + 1));
                let folded = to_lowercase(chars_to_string(&ext).as_str());
                Some(folded)
            } else {
                None
            }
        },
        None => None,
    }
}

/// The path with its extension replaced by `ext`.
pub fn replace_extension(path: &str, ext: &str) -> (r: String)
    ensures
        r@ == spec_replace_extension(path@, ext@),
{
    let chars = str_to_chars(path);
    let n = chars.len();
    let ns: usize = match rfind_exec(&chars, '/') {
        Some(i) => i + 1,
        None => 0,
    };
    let stem_len: usize = match rfind_exec(&chars, '.') {
        Some(d) => if d > ns {
            d
        } else {
            n
        },
        None => n,
    };
    let mut out: Vec<char> = Vec::new();
    let mut i: usize = 0;
    proof {
        assert(out@ =~= chars@.take(0));
    }
    while i < stem_len
        invariant
            stem_len <= chars@.len(),
            i <= stem_len,
            out@ == chars@.take(i as int),
        decreases stem_len - i,
    {
        out.push(chars[i]);
        assert(out@ =~= chars@.take(i + 1));
        i = i + 1;
    }
    let ext_chars = str_to_chars(ext);
    if ext_chars.len() == 0 {
        return chars_to_string(&out);
    }
    out.push('.');
    let m = ext_chars.len();
    let mut k: usize = 0;
    while k < m
        invariant
            m == ext_chars@.len(),
            k <= m,
            ext_chars@ == ext@,
            out@ == chars@.take(stem_len as int) + seq!['.'] + ext@.take(k as int),
        decreases m - k,
    {
        out.push(ext_chars[k]);
        assert(out@ =~= chars@.take(stem_len as int) + seq!['.'] + ext@.take(k + 1));
        k = k + 1;
    }
    proof {
        assert(ext@.take(m as int) =~= ext@);
    }
    chars_to_string(&out)
}

/// The destination root without trailing separators, as characters.
fn trimmed_root(root: &str) -> (r: Vec<char>)
    ensures
        r@ == drop_trailing_slashes(root@),
{
    let mut v = str_to_chars(root);
    proof {
        assert(v@.take(v@.len() as int) =~= v@);
    }
    let mut i: usize = v.len();
    while i > 0 && v[i - 1] == '/'
        invariant
            i <= v@.len(),
            v@ == root@,
            drop_trailing_slashes(root@) == drop_trailing_slashes(v@.take(i as int)),
        decreases i,
    {
        proof {
            assert(v@.take(i as int).last() == v@[i - 1]);
            assert(v@.take(i as int).drop_last() =~= v@.take(i as int - 1));
        }
        i = i - 1;
    }
    proof {
        if i == 0 {
            assert(v@.take(0) =~= Seq::<char>::empty());
        } else {
            assert(v@.take(i as int).last() == v@[i - 1]);
        }
    }
    v.truncate(i);
    proof {
        assert(v@ =~= root@.take(i as int));
    }
    v
}

/// Maps a source path to its destination: where `src_path` lies under
/// `src_root`, the destination root extended by the remainder; `None`
/// where it lies outside the watched root.
pub fn map_dst(src_path: &str, src_root: &str, dst_root: &str) -> (r: Option<String>)
    ensures
        match r {
            Some(d) => spec_map_dst(src_path@, src_root@, dst_root@) == Some(d@),
            None => spec_map_dst(src_path@, src_root@, dst_root@) is None,
        },
{
    let f = str_to_chars(src_path);
    let root = trimmed_root(src_root);
    let rl = root.len();
    if f.len() < rl {
        return None;
    }
    // Does `f` start with the trimmed root?
    let mut i: usize = 0;
    while i < rl
        invariant
            rl == root@.len(),
            rl <= f@.len(),
            i <= rl,
            f@ == src_path@,
            root@ == drop_trailing_slashes(src_root@),
            forall|j: int| 0 <= j < i ==> f@[j] == root@[j],
        decreases rl - i,
    {
        if f[i] != root[i] {
            proof {
                assert(f@.take(rl as int)[i as int] != root@[i as int]);
                if f@ == root@ {
                    assert(f@[i as int] == root@[i as int]);
                }
            }
            return None;
        }
        i = i + 1;
    }
    proof {
        assert(f@.take(rl as int) =~= root@);
    }
    let dst = trimmed_root(dst_root);
    if f.len() == rl {
        proof {
            assert(f@ =~= root@);
            assert(spec_path_suffix(src_path@, src_root@) == Some(Seq::<char>::empty()));
        }
        return Some(chars_to_string(&dst));
    }
    if f[rl] != '/' {
        proof {
            if f@ == root@ {
                assert(f@.len() == root@.len());
            }
        }
        return None;
    }
    proof {
        if f@ == root@ {
            assert(f@.len() == root@.len());
        }
        assert(spec_path_suffix(src_path@, src_root@) == Some(f@.skip(rl as int + 1)));
    }
    if f.len() == rl + 1 {
        proof {
            assert(f@.skip(rl as int + 1) =~= Seq::<char>::empty());
        }
        return Some(chars_to_string(&dst));
    }
    let mut out = dst;
    out.push('/');
    let n = f.len();
    let mut k: usize = rl + 1;
    while k < n
        invariant
            rl + 1 <= k <= n,
            n == f@.len(),
            f@ == src_path@,
            out@ == drop_trailing_slashes(dst_root@) + seq!['/'] + f@.subrange(rl as int + 1, k as int),
        decreases n - k,
    {
        out.push(f[k]);
        assert(out@ =~= drop_trailing_slashes(dst_root@) + seq!['/'] + f@.subrange(
            rl as int + 1,
            k + 1,
        ));
        k = k + 1;
    }
    proof {
        assert(f@.subrange(rl as int + 1, n as int) =~= f@.skip(rl as int + 1));
    }
    Some(chars_to_string(&out))
}

/// What `rfind` answers: the index it returns carries `c` and nothing
/// after it does; `None` means `c` does not occur at all.
pub proof fn lemma_rfind_spec(s: Seq<char>, c: char)
    ensures
        match rfind(s, c) {
            Some(i) => 0 <= i < s.len() && s[i] == c && forall|k: int|
                i < k < s.len() ==> s[k] != c,
            None => forall|k: int| 0 <= k < s.len() ==> s[k] != c,
        },
    decreases s.len(),
{
    if s.len() > 0 && s.last() != c {
        lemma_rfind_spec(s.drop_last(), c);
        match rfind(s, c) {
            Some(i) => {
                assert(s[i] == s.drop_last()[i]);
                assert forall|k: int| i < k < s.len() implies s[k] != c by {
                    if k < s.len() - 1 {
                        assert(s[k] == s.drop_last()[k]);
                    }
                }
            },
            None => {
                assert forall|k: int| 0 <= k < s.len() implies s[k] != c by {
                    if k < s.len() - 1 {
                        assert(s[k] == s.drop_last()[k]);
                    }
                }
            },
        }
    }
}

/// `rfind` over a concatenation: an occurrence in the right part wins;
/// otherwise the left part decides.
pub proof fn lemma_rfind_concat(a: Seq<char>, b: Seq<char>, c: char)
    ensures
        rfind(a + b, c) == match rfind(b, c) {
            Some(k) => Some(a.len() + k),
            None => rfind(a, c),
        },
    decreases b.len(),
{
    if b.len() == 0 {
        assert(a + b =~= a);
    } else {
        assert((a + b).last() == b.last());
        if b.last() != c {
            assert((a + b).drop_last() =~= a + b.drop_last());
            lemma_rfind_concat(a, b.drop_last(), c);
        }
    }
}

/// Cutting a sequence after the last occurrence of `c` does not move
/// that occurrence: where nothing at or after `m` is `c`, the prefix of
/// length `m` answers `rfind` like the whole sequence.
pub proof fn lemma_rfind_take(s: Seq<char>, c: char, m: int)
    requires
        0 <= m <= s.len(),
        forall|k: int| m <= k < s.len() ==> s[k] != c,
    ensures
        rfind(s.take(m), c) == rfind(s, c),
    decreases s.len() - m,
{
    if m < s.len() {
        assert(s.last() != c);
        assert(s.drop_last().take(m) =~= s.take(m));
        lemma_rfind_take(s.drop_last(), c, m);
    } else {
        assert(s.take(m) =~= s);
    }
}

/// Path mapping: for a file under the source root, the mapped
/// destination is exactly the destination root extended by the file's
/// relative suffix.
pub proof fn lemma_path_mapping(f: Seq<char>, src_root: Seq<char>, dst_root: Seq<char>)
    requires
        spec_path_suffix(f, src_root) is Some,
    ensures
        spec_map_dst(f, src_root, dst_root) == Some(
            spec_path_join(dst_root, spec_path_suffix(f, src_root)->Some_0),
        ),
{
}

/// Rewriting a destination's extension really gives it that extension:
/// for a well-formed extension token — non-empty, already folded, free
/// of `.` and `/` — and a destination whose final component is not
/// empty, the rewritten path's extension is the token itself.
pub proof fn lemma_transcoded_extension(d: Seq<char>, e: Seq<char>)
    requires
        e.len() > 0,
        crate::text::is_lower(e),
        !e.contains('.'),
        !e.contains('/'),
        ext_dot(d) is None ==> d.len() > name_start(d),
    ensures
        spec_get_format(spec_replace_extension(d, e)) == Some(e),
{
    let stem = match ext_dot(d) {
        Some(dd) => d.take(dd),
        None => d,
    };
    let r = stem + seq!['.'] + e;
    assert(spec_replace_extension(d, e) == r);
    lemma_rfind_spec(d, '.');
    lemma_rfind_spec(d, '/');
    lemma_rfind_spec(e, '.');
    lemma_rfind_spec(e, '/');
    if rfind(e, '.') is Some {
        let k = rfind(e, '.')->Some_0;
        assert(e.contains(e[k]));
        assert(false);
    }
    if rfind(e, '/') is Some {
        let k = rfind(e, '/')->Some_0;
        assert(e.contains(e[k]));
        assert(false);
    }
    // The last dot of the result introduces `e`.
    assert(rfind(seq!['.'] + e, '.') == Some(0int)) by {
        lemma_rfind_concat(seq!['.'], e, '.');
        assert(rfind(seq!['.'], '.') == Some(0int));
    }
    assert(rfind(r, '.') == Some(stem.len() as int)) by {
        assert(r =~= stem + (seq!['.'] + e));
        lemma_rfind_concat(stem, seq!['.'] + e, '.');
    }
    // The last slash of the result lies inside the stem.
    assert(rfind(seq!['.'] + e, '/') is None) by {
        lemma_rfind_concat(seq!['.'], e, '/');
        lemma_rfind_spec(seq!['.'], '/');
        if rfind(seq!['.'], '/') is Some {
            let k = rfind(seq!['.'], '/')->Some_0;
            assert((seq!['.'])[k] == '/');
        }
    }
    assert(rfind(r, '/') == rfind(stem, '/')) by {
        assert(r =~= stem + (seq!['.'] + e));
        lemma_rfind_concat(stem, seq!['.'] + e, '/');
    }
    // The stem's last slash is the path's last slash, so the dot lies
    // strictly inside the final component.
    match ext_dot(d) {
        Some(dd) => {
            assert(rfind(stem, '/') == rfind(d, '/')) by {
                lemma_rfind_spec(d, '.');
                assert(forall|k: int| dd < k < d.len() ==> d[k] != '.');
                match rfind(d, '/') {
                    Some(sl) => {
                        assert(sl < dd);
                        assert(forall|k: int| dd <= k < d.len() ==> d[k] != '/') by {
                            lemma_rfind_spec(d, '/');
                        }
                        lemma_rfind_take(d, '/', dd);
                    },
                    None => {
                        lemma_rfind_take(d, '/', dd);
                    },
                }
            }
            assert(stem.len() > name_start(r));
        },
        None => {
            assert(stem == d);
            assert(rfind(r, '/') == rfind(d, '/'));
            assert(stem.len() > name_start(r));
        },
    }
    assert(ext_dot(r) == Some(stem.len() as int));
    assert(r.skip(stem.len() as int + 1) =~= e);
    assert(spec_get_format(r) == Some(crate::text::lower(e)));
}

} // verus!
