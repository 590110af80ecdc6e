//! Stylesheet references: each reference that the stylesheet processor left
//! as a placeholder is resolved to its published path and substituted.
use vstd::prelude::*;

use crate::error::CremeError;
use crate::key::{is_external, is_external_url, reference_key, reference_key_of, relative_path, relative_to_root, starts_with};
use crate::manifest::Manifest;
use crate::text::{chars_of, push_char, string_of};

verus! {

/// One reference found in a bundled stylesheet: the placeholder that stands
/// for it in the code, the file it was written in, and the URL as written.
#[derive(Debug)]
pub struct Dependency {
    pub placeholder: String,
    pub file_path: String,
    pub url: String,
}

/// A stylesheet with its imports inlined, and the references left in it.
#[derive(Debug)]
pub struct BundledStylesheet {
    pub code: String,
    pub dependencies: Vec<Dependency>,
}

pub open spec fn dep_view(d: Dependency) -> (Seq<char>, Seq<char>, Seq<char>) {
    (d.placeholder@, d.file_path@, d.url@)
}

pub open spec fn dep_views(v: Seq<Dependency>) -> Seq<(Seq<char>, Seq<char>, Seq<char>)> {
    v.map_values(|d: Dependency| dep_view(d))
}

/// Every occurrence of `pat` in `s`, from left to right and without overlap,
/// replaced by `rep` (an empty pattern replaces nothing).
pub open spec fn replace_all(s: Seq<char>, pat: Seq<char>, rep: Seq<char>) -> Seq<char>
    decreases s.len(),
{
    if s.len() == 0 {
        Seq::empty()
    } else if pat.len() > 0 && starts_with(s, pat) {
        rep + replace_all(s.skip(pat.len() as int), pat, rep)
    } else {
        seq![s[0]] + replace_all(s.drop_first(), pat, rep)
    }
}

/// What a reference to `url`, written in the file at `file_path`, resolves
/// to: an external URL stays as it is; any other gives the published path of
/// the key it names under `root`. `None` when it resolves to no entry.
pub open spec fn dep_target(
    root: Seq<char>,
    file_path: Seq<char>,
    url: Seq<char>,
    m: Map<Seq<char>, Seq<char>>,
) -> Option<Seq<char>> {
    if is_external_url(url) {
        Some(url)
    } else {
        match relative_to_root(root, file_path) {
            Some(rel) => match reference_key(rel, url) {
                Some(k) => if m.contains_key(k) {
                    Some(m[k])
                } else {
                    None
                },
                None => None,
            },
            None => None,
        }
    }
}

/// The text that takes a reference's place in the stylesheet: an external
/// URL as it is, a published path after a `/`.
pub open spec fn dep_replacement(
    root: Seq<char>,
    file_path: Seq<char>,
    url: Seq<char>,
    m: Map<Seq<char>, Seq<char>>,
) -> Option<Seq<char>> {
    match dep_target(root, file_path, url, m) {
        Some(t) => Some(
            if is_external_url(url) {
                t
            } else {
                seq!['/'] + t
            },
        ),
        None => None,
    }
}

/// `code` with the references in `deps` substituted one after the other.
pub open spec fn rewritten(
    code: Seq<char>,
    deps: Seq<(Seq<char>, Seq<char>, Seq<char>)>,
    root: Seq<char>,
    m: Map<Seq<char>, Seq<char>>,
) -> Option<Seq<char>>
    decreases deps.len(),
{
    if deps.len() == 0 {
        Some(code)
    } else {
        let d = deps.last();
        match rewritten(code, deps.drop_last(), root, m) {
            Some(c) => match dep_replacement(root, d.1, d.2, m) {
                Some(t) => Some(replace_all(c, d.0, t)),
                None => None,
            },
            None => None,
        }
    }
}

/// Whether `pat` occurs in `s` at position `i`.
fn occurs_at(s: &Vec<char>, i: usize, pat: &Vec<char>) -> (r: bool)
    requires
        i <= s@.len(),
    ensures
        r == starts_with(s@.skip(i as int), pat@),
{
    let n = s.len();
    let m = pat.len();
    if m > n - i {
        return false;
    }
    let ghost rest = s@.skip(i as int);
    for j in 0..m
        invariant
            m == pat@.len(),
            i + m <= n == s@.len(),
            rest == s@.skip(i as int),
            rest.take(j as int) == pat@.take(j as int),
    {
        if s[i + j] != pat[j] {
            assert(rest.take(m as int)[j as int] == s@[i + j]);
            assert(rest.take(m as int) != pat@);
            return false;
        }
        assert(rest.take(j + 1) == rest.take(j as int).push(rest[j as int]));
        assert(pat@.take(j + 1) == pat@.take(j as int).push(pat@[j as int]));
    }
    assert(pat@.take(m as int) == pat@);
    true
}

/// `s` with every occurrence of `pat` replaced by `rep`.
pub fn replace_chars(s: &Vec<char>, pat: &Vec<char>, rep: &Vec<char>) -> (r: Vec<char>)
    ensures
        r@ == replace_all(s@, pat@, rep@),
{
    let n = s.len();
    let m = pat.len();
    let mut out: Vec<char> = Vec::new();
    let mut i: usize = 0;
    assert(s@.skip(0) == s@);
    while i < n
        invariant
            n == s@.len(),
            m == pat@.len(),
            i <= n,
            replace_all(s@, pat@, rep@) == out@ + replace_all(s@.skip(i as int), pat@, rep@),
        decreases n - i,
    {
        let ghost rest = s@.skip(i as int);
        if m > 0 && occurs_at(s, i, pat) {
            let ghost before = out@;
            let k = rep.len();
            for j in 0..k
                invariant
                    k == rep@.len(),
                    out@ == before + rep@.take(j as int),
            {
                out.push(rep[j]);
                assert(rep@.take(j + 1) == rep@.take(j as int).push(rep@[j as int]));
            }
            assert(rep@.take(k as int) == rep@);
            assert(rest.skip(m as int) == s@.skip(i + m));
            i = i + m;
        } else {
            out.push(s[i]);
            assert(rest.drop_first() == s@.skip(i + 1));
            assert(rest[0] == s@[i as int]);
            i = i + 1;
        }
    }
    assert(s@.skip(n as int) =~= Seq::<char>::empty());
    out
}

/// What the reference `dep` resolves to, given the asset root `assets_dir`
/// and the entries registered so far: an external URL as it is, else the
/// published path of the asset it names.
pub fn resolve_url(dep: &Dependency, assets_dir: &str, manifest: &Manifest) -> (r: Result<
    String,
    CremeError,
>)
    requires
        manifest.wf(),
    ensures
        r is Ok <==> dep_target(assets_dir@, dep.file_path@, dep.url@, manifest@) is Some,
        r matches Ok(t) ==> dep_target(assets_dir@, dep.file_path@, dep.url@, manifest@) == Some(
            t@,
        ),
        is_external_url(dep.url@) ==> (r matches Ok(t) && t@ == dep.url@),
        r matches Err(e) ==> if relative_to_root(assets_dir@, dep.file_path@) is None {
            e is InvalidFileName
        } else {
            e is UnresolvedReference
        },
{
    if is_external(dep.url.as_str()) {
        return Ok(dep.url.clone());
    }
    let rel = match relative_path(assets_dir, dep.file_path.as_str()) {
        Some(rel) => rel,
        None => return Err(CremeError::InvalidFileName(dep.file_path.clone())),
    };
    let key = match reference_key_of(&rel, dep.url.as_str()) {
        Some(key) => key,
        None => return Err(CremeError::UnresolvedReference(dep.url.clone())),
    };
    match manifest.lookup(&key) {
        Some(published) => Ok(published),
        None => Err(CremeError::UnresolvedReference(key)),
    }
}

/// The published text of a bundled stylesheet: each placeholder replaced by
/// what its reference resolves to, in the order of `dependencies`.
pub fn process_css(bundled: &BundledStylesheet, assets_dir: &str, manifest: &Manifest) -> (r: Result<
    String,
    CremeError,
>)
    requires
        manifest.wf(),
    ensures
        r is Ok <==> rewritten(
            bundled.code@,
            dep_views(bundled.dependencies@),
            assets_dir@,
            manifest@,
        ) is Some,
        r matches Ok(text) ==> rewritten(
            bundled.code@,
            dep_views(bundled.dependencies@),
            assets_dir@,
            manifest@,
        ) == Some(text@),
        r matches Err(e) ==> e is InvalidFileName || e is UnresolvedReference,
{
    let ghost deps = dep_views(bundled.dependencies@);
    let mut code = chars_of(bundled.code.as_str());
    let n = bundled.dependencies.len();
    assert(deps.take(0) =~= Seq::<(Seq<char>, Seq<char>, Seq<char>)>::empty());
    for i in 0..n
        invariant
            n == bundled.dependencies@.len(),
            deps == dep_views(bundled.dependencies@),
            manifest.wf(),
            rewritten(bundled.code@, deps.take(i as int), assets_dir@, manifest@) == Some(code@),
    {
        let dep = &bundled.dependencies[i];
        assert(deps.take(i + 1).drop_last() == deps.take(i as int));
        assert(deps.take(i + 1).last() == dep_view(*dep));
        let target = match resolve_url(dep, assets_dir, manifest) {
            Ok(t) => t,
            Err(e) => {
                assert(rewritten(bundled.code@, deps.take(i + 1), assets_dir@, manifest@) is None);
                assert forall|j: int| i + 1 <= j <= n implies rewritten(
                    bundled.code@,
                    #[trigger] deps.take(j),
                    assets_dir@,
                    manifest@,
                ) is None by {
                    lemma_rewritten_stays_none(bundled.code@, deps, assets_dir@, manifest@, i + 1, j);
                }
                assert(deps.take(n as int) == deps);
                return Err(e);
            },
        };
        let replacement = if is_external(dep.url.as_str()) {
            target
        } else {
            let mut r = String::new();
            push_char(&mut r, '/');
            r.append(target.as_str());
            r
        };
        let pat = chars_of(dep.placeholder.as_str());
        let rep = chars_of(replacement.as_str());
        code = replace_chars(&code, &pat, &rep);
    }
    assert(deps.take(n as int) == deps);
    Ok(string_of(code.as_slice()))
}

proof fn lemma_rewritten_stays_none(
    code: Seq<char>,
    deps: Seq<(Seq<char>, Seq<char>, Seq<char>)>,
    root: Seq<char>,
    m: Map<Seq<char>, Seq<char>>,
    i: int,
    j: int,
)
    requires
        0 <= i <= j <= deps.len(),
        rewritten(code, deps.take(i), root, m) is None,
    ensures
        rewritten(code, deps.take(j), root, m) is None,
    decreases j - i,
{
    if j > i {
        lemma_rewritten_stays_none(code, deps, root, m, i, j - 1);
        assert(deps.take(j).drop_last() == deps.take(j - 1));
    }
}

/// An absolute `http://` or `https://` reference is emitted as it is
/// written, whatever the manifest holds: it is never looked up.
pub proof fn lemma_external_reference_unchanged(
    root: Seq<char>,
    file_path: Seq<char>,
    url: Seq<char>,
    m1: Map<Seq<char>, Seq<char>>,
    m2: Map<Seq<char>, Seq<char>>,
)
    requires
        is_external_url(url),
    ensures
        dep_target(root, file_path, url, m1) == Some(url),
        dep_replacement(root, file_path, url, m1) == Some(url),
        dep_replacement(root, file_path, url, m1) == dep_replacement(root, file_path, url, m2),
{
}

} // verus!
