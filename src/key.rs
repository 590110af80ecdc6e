//! Logical keys: root-relative, forward-slash paths that name assets.
//!
//! A path is cut into segments at each `/`; normalizing drops empty and `.`
//! segments and lets `..` remove the segment before it. A path that climbs
//! above the root has no key.
use vstd::prelude::*;

use crate::digest::{is_separator, last_index_of, lemma_last_index_skips, valid_file_name, valid_name};
use crate::text::push_char;

verus! {

/// The segments of `s` between its `/` characters (one more than it has
/// slashes).
pub open spec fn split(s: Seq<char>) -> Seq<Seq<char>>
    decreases s.len(),
{
    if s.len() == 0 {
        seq![Seq::empty()]
    } else {
        let init = split(s.drop_last());
        if s.last() == '/' {
            init.push(Seq::empty())
        } else {
            init.update(init.len() - 1, init.last().push(s.last()))
        }
    }
}

/// Applies the segments `segs` in order to the stack of directories `stack`.
pub open spec fn normalize_from(stack: Seq<Seq<char>>, segs: Seq<Seq<char>>) -> Option<
    Seq<Seq<char>>,
>
    decreases segs.len(),
{
    if segs.len() == 0 {
        Some(stack)
    } else {
        let s = segs[0];
        if s.len() == 0 || s == seq!['.'] {
            normalize_from(stack, segs.drop_first())
        } else if s == seq!['.', '.'] {
            if stack.len() == 0 {
                None
            } else {
                normalize_from(stack.drop_last(), segs.drop_first())
            }
        } else {
            normalize_from(stack.push(s), segs.drop_first())
        }
    }
}

pub open spec fn normalize(segs: Seq<Seq<char>>) -> Option<Seq<Seq<char>>> {
    normalize_from(Seq::empty(), segs)
}

/// The segments joined with `/`.
pub open spec fn join(segs: Seq<Seq<char>>) -> Seq<char>
    decreases segs.len(),
{
    if segs.len() == 0 {
        Seq::empty()
    } else if segs.len() == 1 {
        segs[0]
    } else {
        join(segs.drop_last()) + seq!['/'] + segs.last()
    }
}

/// Every `\` written as `/`.
pub open spec fn forward_slashes(s: Seq<char>) -> Seq<char> {
    s.map_values(|c: char| if c == '\\' { '/' } else { c })
}

/// `path` relative to `root`, when `path` lies under it.
pub open spec fn relative_to_root(root: Seq<char>, path: Seq<char>) -> Option<Seq<char>> {
    if root.len() == 0 {
        Some(path)
    } else if root.len() <= path.len() && path.take(root.len() as int) == root {
        let rest = path.skip(root.len() as int);
        if is_separator(root.last()) {
            Some(rest)
        } else if rest.len() > 0 && is_separator(rest[0]) {
            Some(rest.drop_first())
        } else {
            None
        }
    } else {
        None
    }
}

/// The normalized segments of a root-relative path, when it stays under the
/// root and its last segment names a file.
pub open spec fn key_segments(rel: Seq<char>) -> Option<Seq<Seq<char>>> {
    match normalize(split(forward_slashes(rel))) {
        Some(segs) => if segs.len() > 0 && valid_file_name(segs.last()) {
            Some(segs)
        } else {
            None
        },
        None => None,
    }
}

/// The logical key of the file at `path` under the asset root `root`.
pub open spec fn key_of(root: Seq<char>, path: Seq<char>) -> Option<Seq<char>> {
    match relative_to_root(root, path) {
        Some(rel) => match key_segments(rel) {
            Some(segs) => Some(join(segs)),
            None => None,
        },
        None => None,
    }
}

pub open spec fn views(v: Seq<Vec<char>>) -> Seq<Seq<char>> {
    v.map_values(|s: Vec<char>| s@)
}

proof fn lemma_split_nonempty(s: Seq<char>)
    ensures
        split(s).len() > 0,
    decreases s.len(),
{
    if s.len() > 0 {
        lemma_split_nonempty(s.drop_last());
    }
}

/// The segments of `cs` between its `/` characters.
pub fn split_segments(cs: &Vec<char>) -> (r: Vec<Vec<char>>)
    ensures
        views(r@) == split(cs@),
{
    let mut done: Vec<Vec<char>> = Vec::new();
    let mut cur: Vec<char> = Vec::new();
    let n = cs.len();
    assert(cs@.take(0) == Seq::<char>::empty());
    assert(views(done@).push(cur@) == seq![Seq::<char>::empty()]);
    for i in 0..n
        invariant
            n == cs@.len(),
            views(done@).push(cur@) == split(cs@.take(i as int)),
    {
        let c = cs[i];
        let ghost before = cs@.take(i as int);
        assert(cs@.take(i + 1).drop_last() == before);
        proof {
            lemma_split_nonempty(before);
        }
        if c == '/' {
            let finished = cur;
            done.push(finished);
            cur = Vec::new();
            assert(views(done@) == views(done@.drop_last()).push(finished@));
        } else {
            cur.push(c);
        }
        assert(views(done@).push(cur@) =~= split(cs@.take(i + 1)));
    }
    assert(cs@.take(n as int) == cs@);
    done.push(cur);
    assert(views(done@) =~= split(cs@));
    done
}

fn copy_chars(v: &Vec<char>) -> (r: Vec<char>)
    ensures
        r@ == v@,
{
    let mut r: Vec<char> = Vec::new();
    let n = v.len();
    for i in 0..n
        invariant
            n == v@.len(),
            r@ == v@.take(i as int),
    {
        r.push(v[i]);
        assert(v@.take(i + 1) == v@.take(i as int).push(v@[i as int]));
    }
    assert(v@.take(n as int) == v@);
    r
}

fn is_dot(s: &Vec<char>) -> (r: bool)
    ensures
        r == (s@ == seq!['.']),
{
    let r = s.len() == 1 && s[0] == '.';
    proof {
        if s.len() == 1 && s[0] == '.' {
            assert(s@ =~= seq!['.']);
        }
    }
    r
}

fn is_dot_dot(s: &Vec<char>) -> (r: bool)
    ensures
        r == (s@ == seq!['.', '.']),
{
    let r = s.len() == 2 && s[0] == '.' && s[1] == '.';
    proof {
        if s.len() == 2 && s[0] == '.' && s[1] == '.' {
            assert(s@ =~= seq!['.', '.']);
        }
    }
    r
}

/// Normalizes `segs`: empty and `.` segments are dropped, `..` removes the
/// segment before it; `None` when a `..` climbs above the start.
pub fn normalize_segments(segs: &Vec<Vec<char>>) -> (r: Option<Vec<Vec<char>>>)
    ensures
        match r {
            Some(v) => normalize(views(segs@)) == Some(views(v@)),
            None => normalize(views(segs@)) is None,
        },
{
    let mut stack: Vec<Vec<char>> = Vec::new();
    let n = segs.len();
    assert(views(segs@).skip(0) == views(segs@));
    assert(views(stack@) =~= Seq::<Seq<char>>::empty());
    for i in 0..n
        invariant
            n == segs@.len(),
            normalize(views(segs@)) == normalize_from(views(stack@), views(segs@).skip(i as int)),
    {
        let seg = &segs[i];
        let ghost rest = views(segs@).skip(i as int);
        assert(rest[0] == seg@);
        assert(rest.drop_first() == views(segs@).skip(i + 1));
        if seg.len() == 0 || is_dot(seg) {
        } else if is_dot_dot(seg) {
            if stack.len() == 0 {
                return None;
            }
            let ghost old_stack = stack@;
            stack.pop();
            assert(views(stack@) =~= views(old_stack).drop_last());
        } else {
            let ghost old_stack = stack@;
            let copy = copy_chars(seg);
            stack.push(copy);
            assert(views(stack@) =~= views(old_stack).push(seg@));
        }
    }
    assert(views(segs@).skip(n as int) =~= Seq::<Seq<char>>::empty());
    Some(stack)
}

/// The segments joined with `/`.
pub fn join_segments(segs: &Vec<Vec<char>>) -> (r: String)
    ensures
        r@ == join(views(segs@)),
{
    let mut r = String::new();
    let n = segs.len();
    assert(views(segs@).take(0) =~= Seq::<Seq<char>>::empty());
    for i in 0..n
        invariant
            n == segs@.len(),
            r@ == join(views(segs@).take(i as int)),
    {
        let ghost before = r@;
        if i > 0 {
            push_char(&mut r, '/');
        }
        let seg = &segs[i];
        let m = seg.len();
        for j in 0..m
            invariant
                m == seg@.len(),
                r@ == (if i > 0 {
                    before + seq!['/']
                } else {
                    before
                }) + seg@.take(j as int),
        {
            push_char(&mut r, seg[j]);
            assert(seg@.take(j + 1) == seg@.take(j as int).push(seg@[j as int]));
        }
        assert(seg@.take(m as int) == seg@);
        let ghost t = views(segs@).take(i + 1);
        assert(t.drop_last() =~= views(segs@).take(i as int));
        assert(t.last() == seg@);
        if i == 0 {
            assert(t =~= seq![seg@]);
            assert(before =~= Seq::<char>::empty());
            assert(r@ =~= join(t));
        }
    }
    assert(views(segs@).take(n as int) =~= views(segs@));
    r
}

/// The view of an optional string.
pub open spec fn opt_view(o: Option<String>) -> Option<Seq<char>> {
    match o {
        Some(s) => Some(s@),
        None => None,
    }
}

/// `s` begins with `prefix`.
pub open spec fn starts_with(s: Seq<char>, prefix: Seq<char>) -> bool {
    prefix.len() <= s.len() && s.take(prefix.len() as int) == prefix
}

/// An absolute `http://` or `https://` URL, which is never rewritten.
pub open spec fn is_external_url(url: Seq<char>) -> bool {
    starts_with(url, seq!['h', 't', 't', 'p', ':', '/', '/']) || starts_with(
        url,
        seq!['h', 't', 't', 'p', 's', ':', '/', '/'],
    )
}

/// The logical key that `url`, written in the file at root-relative path
/// `rel`, refers to: relative to that file's directory, or to the root when
/// it begins with `/`.
pub open spec fn reference_key(rel: Seq<char>, url: Seq<char>) -> Option<Seq<char>> {
    let segs = if url.len() > 0 && url[0] == '/' {
        split(url)
    } else {
        split(forward_slashes(rel)).drop_last() + split(url)
    };
    match normalize(segs) {
        Some(s) => if s.len() > 0 {
            Some(join(s))
        } else {
            None
        },
        None => None,
    }
}

pub(crate) fn has_prefix(cs: &Vec<char>, prefix: &[char]) -> (r: bool)
    ensures
        r == starts_with(cs@, prefix@),
{
    if prefix.len() > cs.len() {
        return false;
    }
    let n = prefix.len();
    for i in 0..n
        invariant
            n == prefix@.len() <= cs@.len(),
            cs@.take(i as int) == prefix@.take(i as int),
    {
        if cs[i] != prefix[i] {
            assert(cs@.take(n as int)[i as int] != prefix@[i as int]);
            return false;
        }
        assert(cs@.take(i + 1) == cs@.take(i as int).push(cs@[i as int]));
        assert(prefix@.take(i + 1) == prefix@.take(i as int).push(prefix@[i as int]));
    }
    assert(prefix@.take(n as int) == prefix@);
    true
}

/// Whether `url` is an absolute `http://` or `https://` URL.
pub fn is_external(url: &str) -> (r: bool)
    ensures
        r == is_external_url(url@),
{
    let cs = crate::text::chars_of(url);
    let http = ['h', 't', 't', 'p', ':', '/', '/'];
    let https = ['h', 't', 't', 'p', 's', ':', '/', '/'];
    assert(http@ == seq!['h', 't', 't', 'p', ':', '/', '/']);
    assert(https@ == seq!['h', 't', 't', 'p', 's', ':', '/', '/']);
    has_prefix(&cs, http.as_slice()) || has_prefix(&cs, https.as_slice())
}

fn forward_slashes_of(cs: &Vec<char>) -> (r: Vec<char>)
    ensures
        r@ == forward_slashes(cs@),
{
    let mut r: Vec<char> = Vec::new();
    let n = cs.len();
    for i in 0..n
        invariant
            n == cs@.len(),
            r@ =~= forward_slashes(cs@.take(i as int)),
    {
        let c = cs[i];
        r.push(if c == '\\' { '/' } else { c });
        assert(cs@.take(i + 1) == cs@.take(i as int).push(c));
    }
    assert(cs@.take(n as int) == cs@);
    r
}

fn is_sep(c: char) -> (r: bool)
    ensures
        r == is_separator(c),
{
    c == '/' || c == '\\'
}

/// `path` relative to `root`, when `path` lies under it.
pub fn relative_path(root: &str, path: &str) -> (r: Option<Vec<char>>)
    ensures
        match r {
            Some(v) => relative_to_root(root@, path@) == Some(v@),
            None => relative_to_root(root@, path@) is None,
        },
{
    let rs = crate::text::chars_of(root);
    let ps = crate::text::chars_of(path);
    if rs.len() == 0 {
        return Some(ps);
    }
    if !has_prefix(&ps, rs.as_slice()) {
        return None;
    }
    let n = ps.len();
    let start = if is_sep(rs[rs.len() - 1]) {
        rs.len()
    } else if rs.len() < n && is_sep(ps[rs.len()]) {
        rs.len() + 1
    } else {
        return None;
    };
    let mut rest: Vec<char> = Vec::new();
    for i in start..n
        invariant
            start <= n == ps@.len(),
            rest@ == ps@.subrange(start as int, i as int),
    {
        rest.push(ps[i]);
        assert(ps@.subrange(start as int, i + 1) == ps@.subrange(start as int, i as int).push(
            ps@[i as int],
        ));
    }
    assert(rs@.last() == rs@[rs@.len() - 1]);
    assert(ps@.skip(rs@.len() as int) == ps@.subrange(rs@.len() as int, n as int));
    if start > rs.len() {
        assert(ps@.skip(rs@.len() as int).drop_first() == ps@.subrange(start as int, n as int));
    }
    Some(rest)
}

/// Normalized, joined key of `segs`, unless it is empty or climbs too far.
fn key_from_segments(segs: &Vec<Vec<char>>) -> (r: Option<String>)
    ensures
        opt_view(r) == (match normalize(views(segs@)) {
            Some(s) => if s.len() > 0 {
                Some(join(s))
            } else {
                None
            },
            None => None,
        }),
{
    match normalize_segments(segs) {
        Some(norm) => {
            if norm.len() == 0 {
                None
            } else {
                Some(join_segments(&norm))
            }
        },
        None => None,
    }
}

/// The logical key of the file at `path` under the asset root `root`.
pub fn logical_key(root: &str, path: &str) -> (r: Option<String>)
    ensures
        opt_view(r) == key_of(root@, path@),
{
    match relative_path(root, path) {
        Some(rel) => {
            let fs = forward_slashes_of(&rel);
            let segs = split_segments(&fs);
            match normalize_segments(&segs) {
                Some(norm) => {
                    let n = norm.len();
                    if n > 0 && valid_name(&norm[n - 1]) {
                        assert(views(norm@).last() == norm@[n - 1]@);
                        Some(join_segments(&norm))
                    } else {
                        proof {
                            if n > 0 {
                                assert(views(norm@).last() == norm@[n - 1]@);
                            }
                        }
                        None
                    }
                },
                None => None,
            }
        },
        None => None,
    }
}

/// The logical key that `url`, written in the file at root-relative path
/// `rel`, refers to.
pub fn reference_key_of(rel: &Vec<char>, url: &str) -> (r: Option<String>)
    ensures
        opt_view(r) == reference_key(rel@, url@),
{
    let us = crate::text::chars_of(url);
    let mut url_segs = split_segments(&us);
    if us.len() > 0 && us[0] == '/' {
        key_from_segments(&url_segs)
    } else {
        let fs = forward_slashes_of(rel);
        let mut segs = split_segments(&fs);
        proof {
            lemma_split_nonempty(fs@);
        }
        let ghost dir = segs@.drop_last();
        segs.pop();
        let ghost tail = url_segs@;
        segs.append(&mut url_segs);
        assert(views(segs@) =~= views(dir) + views(tail));
        assert(views(dir) =~= split(fs@).drop_last());
        key_from_segments(&segs)
    }
}

/// The file name at the end of a key: what follows its last `/`.
pub open spec fn key_file_name(key: Seq<char>) -> Seq<char> {
    key.skip(last_index_of(key, '/') + 1)
}

/// The directory part of a key: everything up to and including its last `/`.
pub open spec fn key_dir(key: Seq<char>) -> Seq<char> {
    key.take(last_index_of(key, '/') + 1)
}

proof fn lemma_join_file_name(segs: Seq<Seq<char>>)
    requires
        segs.len() > 0,
        valid_file_name(segs.last()),
    ensures
        key_file_name(join(segs)) == segs.last(),
{
    let last = segs.last();
    assert forall|j: int| 0 <= j < last.len() implies last[j] != '/' by {
        assert(!is_separator(last[j]));
    }
    if segs.len() == 1 {
        lemma_last_index_skips(Seq::empty(), last, '/');
        assert(Seq::<char>::empty() + last == last);
        assert(join(segs) == last);
    } else {
        let a = join(segs.drop_last()).push('/');
        assert(join(segs) == a + last);
        lemma_last_index_skips(a, last, '/');
        assert(a.drop_last() == join(segs.drop_last()));
        assert((a + last).skip(a.len() as int) == last);
    }
}

/// A logical key ends in the name of a file.
pub proof fn lemma_key_file_name(root: Seq<char>, path: Seq<char>)
    requires
        key_of(root, path) is Some,
    ensures
        valid_file_name(key_file_name(key_of(root, path)->0)),
{
    let segs = key_segments(relative_to_root(root, path)->0)->0;
    lemma_join_file_name(segs);
}

} // verus!
