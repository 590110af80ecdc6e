//! Discovery results: the files found under an asset root, classified as
//! stylesheets or opaque assets, with the ignore rule applied.
use vstd::prelude::*;

use crate::digest::{file_extension, is_separator, last_index_of};
use crate::error::CremeError;
use crate::key::{key_of, logical_key, opt_view, starts_with};
use crate::text::{chars_of, str_eq};

verus! {

/// The media type guessed for a path from its extension, as a
/// `type/subtype` text.
pub uninterp spec fn mime_of_path(path: Seq<char>) -> Seq<char>;

/// `css` in any ASCII letter case.
pub open spec fn is_css_extension(e: Seq<char>) -> bool {
    &&& e.len() == 3
    &&& (e[0] == 'c' || e[0] == 'C')
    &&& (e[1] == 's' || e[1] == 'S')
    &&& (e[2] == 's' || e[2] == 'S')
}

/// The path, written with `/` separators only, names a file whose extension
/// is `css`.
pub open spec fn has_css_extension(path: Seq<char>) -> bool {
    &&& forall|i: int| 0 <= i < path.len() ==> path[i] != '\\'
    &&& match file_extension(file_name_of(path)) {
        Some(e) => is_css_extension(e),
        None => false,
    }
}

/// Relies on `mime_guess::from_path(..).first_or_octet_stream()`: the media
/// type registered for the path's extension, `application/octet-stream` when
/// there is none. Only the essence (`type/subtype`) is kept. The extension is
/// looked up without regard to case, and `css` is registered as `text/css`.
#[verifier::external_body]
fn guess_mime(path: &str) -> (r: String)
    ensures
        r@ == mime_of_path(path@),
        has_css_extension(path@) ==> r@ == css_media_type(),
{
    mime_guess::from_path(path).first_or_octet_stream().essence_str().to_string()
}

pub open spec fn css_media_type() -> Seq<char> {
    seq!['t', 'e', 'x', 't', '/', 'c', 's', 's']
}

/// How an asset is processed: stylesheets are bundled and rewritten, every
/// other file is copied as it is.
#[derive(Debug)]
pub enum AssetType {
    Css,
    /// Any other media type, as its `type/subtype` text.
    Other(String),
}

impl AssetType {
    pub open spec fn spec_of(mime: Seq<char>) -> AssetTypeView {
        if mime == css_media_type() {
            AssetTypeView::Css
        } else {
            AssetTypeView::Other(mime)
        }
    }

    pub open spec fn view_of(&self) -> AssetTypeView {
        match self {
            AssetType::Css => AssetTypeView::Css,
            AssetType::Other(m) => AssetTypeView::Other(m@),
        }
    }

    /// The asset type of the media type `mime`.
    pub fn from_mime(mime: String) -> (r: AssetType)
        ensures
            r.view_of() == AssetType::spec_of(mime@),
    {
        let css = str_eq(mime.as_str(), "text/css");
        proof {
            reveal_strlit("text/css");
        }
        assert("text/css"@ =~= css_media_type());
        if css {
            AssetType::Css
        } else {
            AssetType::Other(mime)
        }
    }

    pub fn is_css(&self) -> (r: bool)
        ensures
            r == (self.view_of() is Css),
    {
        match self {
            AssetType::Css => true,
            AssetType::Other(_) => false,
        }
    }
}

/// The mathematical value of an [`AssetType`].
pub enum AssetTypeView {
    Css,
    Other(Seq<char>),
}

/// One discovered file: where it is, its logical key and its type.
#[derive(Debug)]
pub struct Asset {
    pub path: String,
    pub key: String,
    pub asset_type: AssetType,
}

/// How files under an asset root are selected.
#[derive(Debug)]
pub struct AssetSourceConfig {
    /// Files whose name begins with this text are left out.
    pub ignore_leading: Option<String>,
}

impl AssetSourceConfig {
    /// Names beginning with `_` are left out.
    pub fn default() -> (r: AssetSourceConfig)
        ensures
            opt_view(r.ignore_leading) == Some(seq!['_']),
    {
        let r = AssetSourceConfig { ignore_leading: Some("_".to_string()) };
        proof {
            reveal_strlit("_");
        }
        r
    }
}

/// The file name at the end of `path`.
pub open spec fn file_name_of(path: Seq<char>) -> Seq<char> {
    path.skip(
        if last_index_of(path, '/') > last_index_of(path, '\\') {
            last_index_of(path, '/')
        } else {
            last_index_of(path, '\\')
        } + 1,
    )
}

/// Whether the ignore rule leaves `path` out: only its file name is tested.
pub open spec fn is_ignored(path: Seq<char>, ignore: Option<Seq<char>>) -> bool {
    match ignore {
        Some(prefix) => starts_with(file_name_of(path), prefix),
        None => false,
    }
}

/// Whether `path` is kept and is (or is not, by `css`) a stylesheet.
pub open spec fn selected(path: Seq<char>, ignore: Option<Seq<char>>, css: bool) -> bool {
    !is_ignored(path, ignore) && (mime_of_path(path) == css_media_type()) == css
}

/// The paths among `paths` that are kept and of the kind `css`, in order.
pub open spec fn select(paths: Seq<Seq<char>>, ignore: Option<Seq<char>>, css: bool) -> Seq<
    Seq<char>,
>
    decreases paths.len(),
{
    if paths.len() == 0 {
        Seq::empty()
    } else {
        let init = select(paths.drop_last(), ignore, css);
        if selected(paths.last(), ignore, css) {
            init.push(paths.last())
        } else {
            init
        }
    }
}

/// Every kept path whose extension is `css` has the stylesheet media type,
/// and so is listed as a stylesheet.
pub open spec fn css_extensions_are_css(paths: Seq<Seq<char>>, ignore: Option<Seq<char>>) -> bool {
    forall|i: int|
        0 <= i < paths.len() && !is_ignored(paths[i], ignore) && has_css_extension(paths[i])
            ==> mime_of_path(#[trigger] paths[i]) == css_media_type()
}

/// Every kept path lies under `root` and has a logical key there.
pub open spec fn all_keyed(root: Seq<char>, paths: Seq<Seq<char>>, ignore: Option<Seq<char>>) -> bool {
    forall|i: int|
        0 <= i < paths.len() && !is_ignored(paths[i], ignore) ==> (#[trigger] key_of(root, paths[i]))
            is Some
}

pub open spec fn string_views(v: Seq<String>) -> Seq<Seq<char>> {
    v.map_values(|s: String| s@)
}

pub open spec fn asset_paths(v: Seq<Asset>) -> Seq<Seq<char>> {
    v.map_values(|a: Asset| a.path@)
}

impl Asset {
    /// The asset is the file at `path` under `root`, keyed and typed as the
    /// path says.
    pub open spec fn describes(&self, root: Seq<char>) -> bool {
        &&& key_of(root, self.path@) == Some(self.key@)
        &&& self.asset_type.view_of() == AssetType::spec_of(mime_of_path(self.path@))
    }
}

/// The assets found under one root directory.
#[derive(Debug)]
pub struct AssetSource {
    pub src_dir: String,
    /// Opaque assets, copied (and possibly hashed) as they are.
    pub sources: Vec<Asset>,
    /// Stylesheets, bundled and rewritten before they are published.
    pub css_sources: Vec<Asset>,
    pub source_config: AssetSourceConfig,
}

impl AssetSource {
    /// The source is what discovery under `root` makes of `files` with the
    /// default ignore prefix `_`: each kept file, in order, in the list of
    /// its kind.
    pub open spec fn selected_from(&self, root: Seq<char>, files: Seq<String>) -> bool {
        &&& self.wf()
        &&& self.src_dir@ == root
        &&& asset_paths(self.sources@) == select(string_views(files), Some(seq!['_']), false)
        &&& asset_paths(self.css_sources@) == select(string_views(files), Some(seq!['_']), true)
    }

    /// Each asset lies under the root with its key, and the two lists hold
    /// what their names say.
    pub open spec fn wf(&self) -> bool {
        &&& forall|i: int|
            0 <= i < self.sources@.len() ==> (#[trigger] self.sources@[i]).describes(self.src_dir@)
                && !(self.sources@[i].asset_type.view_of() is Css)
        &&& forall|i: int|
            0 <= i < self.css_sources@.len() ==> (#[trigger] self.css_sources@[i]).describes(
                self.src_dir@,
            ) && self.css_sources@[i].asset_type.view_of() is Css
    }

    /// The assets among `files` (paths under `src_dir`), with names that
    /// begin with `_` left out.
    pub fn from_asset_dir(src_dir: String, files: Vec<String>) -> (r: Result<AssetSource, CremeError>)
        ensures
            r is Ok <==> all_keyed(src_dir@, string_views(files@), Some(seq!['_'])),
            r matches Ok(s) ==> s.wf() && s.src_dir@ == src_dir@
                && asset_paths(s.sources@) == select(string_views(files@), Some(seq!['_']), false)
                && asset_paths(s.css_sources@) == select(string_views(files@), Some(seq!['_']), true)
                && opt_view(s.source_config.ignore_leading) == Some(seq!['_']),
            r is Ok ==> css_extensions_are_css(string_views(files@), Some(seq!['_'])),
            r matches Err(e) ==> e is InvalidFileName,
    {
        Self::from_files(src_dir, files, AssetSourceConfig::default())
    }

    /// The assets among `files` (paths under `src_dir`), selected by `config`.
    pub fn from_files(src_dir: String, files: Vec<String>, config: AssetSourceConfig) -> (r: Result<
        AssetSource,
        CremeError,
    >)
        ensures
            r is Ok <==> all_keyed(src_dir@, string_views(files@), opt_view(config.ignore_leading)),
            r matches Ok(s) ==> s.wf() && s.src_dir@ == src_dir@
                && asset_paths(s.sources@) == select(
                string_views(files@),
                opt_view(config.ignore_leading),
                false,
            ) && asset_paths(s.css_sources@) == select(
                string_views(files@),
                opt_view(config.ignore_leading),
                true,
            ) && opt_view(s.source_config.ignore_leading) == opt_view(config.ignore_leading),
            r is Ok ==> css_extensions_are_css(string_views(files@), opt_view(config.ignore_leading)),
            r matches Err(e) ==> e is InvalidFileName,
    {
        let ghost ignore = opt_view(config.ignore_leading);
        let ghost paths = string_views(files@);
        let mut sources: Vec<Asset> = Vec::new();
        let mut css_sources: Vec<Asset> = Vec::new();
        let n = files.len();
        let mut i: usize = 0;
        assert(paths.take(0) =~= Seq::<Seq<char>>::empty());
        while i < n
            invariant
                n == files@.len(),
                i <= n,
                paths == string_views(files@),
                ignore == opt_view(config.ignore_leading),
                all_keyed(src_dir@, paths.take(i as int), ignore),
                css_extensions_are_css(paths.take(i as int), ignore),
                asset_paths(sources@) == select(paths.take(i as int), ignore, false),
                asset_paths(css_sources@) == select(paths.take(i as int), ignore, true),
                forall|j: int|
                    0 <= j < sources@.len() ==> (#[trigger] sources@[j]).describes(src_dir@)
                        && !(sources@[j].asset_type.view_of() is Css),
                forall|j: int|
                    0 <= j < css_sources@.len() ==> (#[trigger] css_sources@[j]).describes(src_dir@)
                        && css_sources@[j].asset_type.view_of() is Css,
            decreases n - i,
        {
            let path = files[i].clone();
            let ghost p = paths[i as int];
            let ghost before = paths.take(i as int);
            assert(paths.take(i + 1).drop_last() == before);
            assert(paths.take(i + 1).last() == p);
            let ignored = Self::ignored(path.as_str(), &config.ignore_leading);
            if !ignored {
                match logical_key(src_dir.as_str(), path.as_str()) {
                    Some(key) => {
                        let mime = guess_mime(path.as_str());
                        let asset_type = AssetType::from_mime(mime);
                        let ghost old_sources = sources@;
                        let ghost old_css = css_sources@;
                        if asset_type.is_css() {
                            css_sources.push(Asset { path, key, asset_type });
                            assert(asset_paths(css_sources@) =~= asset_paths(old_css).push(p));
                        } else {
                            sources.push(Asset { path, key, asset_type });
                            assert(asset_paths(sources@) =~= asset_paths(old_sources).push(p));
                        }
                    },
                    None => {
                        assert(path@ == p);
                        assert(!is_ignored(paths[i as int], ignore));
                        assert(key_of(src_dir@, paths[i as int]) is None);
                        assert(!all_keyed(src_dir@, paths, ignore));
                        return Err(CremeError::InvalidFileName(path));
                    },
                }
            }
            assert forall|j: int|
                0 <= j < paths.take(i + 1).len() && !is_ignored(paths.take(i + 1)[j], ignore)
                    && has_css_extension(paths.take(i + 1)[j]) implies mime_of_path(
                #[trigger] paths.take(i + 1)[j],
            ) == css_media_type() by {
                if j < i {
                    assert(paths.take(i + 1)[j] == before[j]);
                }
            }
            assert forall|j: int|
                0 <= j < paths.take(i + 1).len() && !is_ignored(paths.take(i + 1)[j], ignore) implies (
            #[trigger] key_of(src_dir@, paths.take(i + 1)[j])) is Some by {
                if j < i {
                    assert(paths.take(i + 1)[j] == before[j]);
                }
            }
            i = i + 1;
        }
        assert(paths.take(n as int) == paths);
        Ok(AssetSource { src_dir, sources, css_sources, source_config: config })
    }

    /// Whether the ignore rule leaves `path` out.
    fn ignored(path: &str, ignore: &Option<String>) -> (r: bool)
        ensures
            r == is_ignored(path@, opt_view(*ignore)),
    {
        match ignore {
            None => false,
            Some(prefix) => {
                let cs = chars_of(path);
                let n = cs.len();
                let slash = crate::digest::last_position(&cs, '/');
                let back = crate::digest::last_position(&cs, '\\');
                proof {
                    crate::digest::lemma_last_index_bounds(cs@, '/');
                    crate::digest::lemma_last_index_bounds(cs@, '\\');
                }
                let start: usize = match (slash, back) {
                    (Some(a), Some(b)) => if a > b {
                        a + 1
                    } else {
                        b + 1
                    },
                    (Some(a), None) => a + 1,
                    (None, Some(b)) => b + 1,
                    (None, None) => 0,
                };
                let ps = chars_of(prefix.as_str());
                let m = ps.len();
                let ghost name = cs@.skip(start as int);
                assert(name == file_name_of(path@));
                if m > n - start {
                    return false;
                }
                for j in 0..m
                    invariant
                        m == ps@.len(),
                        start + m <= n == cs@.len(),
                        name == cs@.skip(start as int),
                        name == file_name_of(path@),
                        ps@ == prefix@,
                        opt_view(*ignore) == Some(prefix@),
                        name.take(j as int) == ps@.take(j as int),
                {
                    if cs[start + j] != ps[j] {
                        assert(name.take(m as int)[j as int] == cs@[start + j]);
                        assert(name.take(m as int)[j as int] != ps@[j as int]);
                        assert(name.take(m as int) != ps@);
                        return false;
                    }
                    assert(name.take(j + 1) == name.take(j as int).push(name[j as int]));
                    assert(ps@.take(j + 1) == ps@.take(j as int).push(ps@[j as int]));
                }
                assert(ps@.take(m as int) == ps@);
                true
            },
        }
    }
}

proof fn lemma_push_contains(s: Seq<Seq<char>>, x: Seq<char>, p: Seq<char>)
    ensures
        s.push(x).contains(p) <==> (s.contains(p) || x == p),
{
    if s.push(x).contains(p) && x != p {
        let i = choose|i: int| 0 <= i < s.push(x).len() && s.push(x)[i] == p;
        assert(i < s.len());
        assert(s[i] == p);
    }
    if s.contains(p) {
        let i = choose|i: int| 0 <= i < s.len() && s[i] == p;
        assert(s.push(x)[i] == p);
    }
    if x == p {
        assert(s.push(x)[s.len() as int] == p);
    }
}

proof fn lemma_select_contains(paths: Seq<Seq<char>>, ignore: Option<Seq<char>>, css: bool, p: Seq<char>)
    ensures
        select(paths, ignore, css).contains(p) <==> (paths.contains(p) && selected(p, ignore, css)),
    decreases paths.len(),
{
    if paths.len() > 0 {
        let init = paths.drop_last();
        let x = paths.last();
        lemma_select_contains(init, ignore, css, p);
        assert(paths == init.push(x));
        lemma_push_contains(init, x, p);
        if selected(x, ignore, css) {
            lemma_push_contains(select(init, ignore, css), x, p);
        }
    } else {
        assert(!paths.contains(p));
    }
}

/// The ignore rule: a discovered file whose name begins with the ignore
/// prefix is in neither list; any other whose extension is `css` is listed
/// as a stylesheet and not as an opaque asset.
pub proof fn lemma_ignore_rule(paths: Seq<Seq<char>>, ignore: Option<Seq<char>>, p: Seq<char>)
    requires
        css_extensions_are_css(paths, ignore),
        paths.contains(p),
    ensures
        is_ignored(p, ignore) ==> !select(paths, ignore, false).contains(p) && !select(
            paths,
            ignore,
            true,
        ).contains(p),
        !is_ignored(p, ignore) && has_css_extension(p) ==> select(paths, ignore, true).contains(p)
            && !select(paths, ignore, false).contains(p),
{
    lemma_select_contains(paths, ignore, false, p);
    lemma_select_contains(paths, ignore, true, p);
    let i = choose|i: int| 0 <= i < paths.len() && paths[i] == p;
    if !is_ignored(p, ignore) && has_css_extension(p) {
        assert(mime_of_path(paths[i]) == css_media_type());
    }
}

} // verus!
