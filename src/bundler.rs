//! Build configuration and the release build: every discovered asset is
//! given its published path and final bytes, and registered in the manifest.
use vstd::prelude::*;

use crate::css::{dep_target, dep_views, process_css, rewritten, BundledStylesheet};
use crate::error::{CremeError, CremeResult};
use crate::key::{key_of, opt_view};
use crate::manifest::Manifest;
use crate::digest::{digest_text, is_digest_text, valid_file_name};
use crate::key::key_file_name;
use crate::publish::{lemma_published_name_injective, lemma_published_path_injective, publish_path, published_path};
use crate::source::{Asset, AssetSource};
use vstd::utf8::encode_utf8;

verus! {

/// How a build writes assets.
#[derive(Debug, Clone, Copy, PartialEq, Eq, Structural)]
pub enum ReleaseMode {
    /// Nothing is copied: assets are served from where they are.
    Development,
    /// Assets are written to the output tree, with a content digest in their
    /// names when `hashed`, all in one directory when `flatten`. Logical keys
    /// and published paths must both be distinct: a build in which two
    /// assets would share either fails.
    Release { hashed: bool, flatten: bool },
}

/// The configuration of a build, filled in step by step.
#[derive(Debug)]
pub struct Creme {
    /// The directory copied verbatim into the output public directory.
    pub public_dir: Option<String>,
    /// The asset root and the assets found under it.
    pub assets: Option<AssetSource>,
    /// Where assets are written, relative to the output public directory.
    pub out_assets_dir: Option<String>,
    /// Where the public directory is written, relative to the output directory.
    pub out_public_dir: Option<String>,
    /// The directory that receives everything a build writes.
    pub out_dir: Option<String>,
    pub release_mode: ReleaseMode,
}

/// A complete configuration, ready to build.
#[derive(Debug)]
pub struct CremeBundler {
    pub public_dir: String,
    pub assets: AssetSource,
    pub out_assets_dir: String,
    pub out_public_dir: String,
    pub out_dir: String,
    pub release_mode: ReleaseMode,
}

/// One asset as it is published.
#[derive(Debug)]
pub struct PublishedFile {
    /// The asset's logical key.
    pub key: String,
    /// Its path relative to the output assets directory.
    pub path: String,
    /// Its final bytes.
    pub content: Vec<u8>,
}

/// What a build publishes: the files and the manifest that maps each logical
/// key to its published path.
pub struct BuildOutput {
    pub files: Vec<PublishedFile>,
    pub manifest: Manifest,
}

impl Creme {
    /// An empty configuration in development mode.
    pub fn new() -> (r: Creme)
        ensures
            r.public_dir is None,
            r.assets is None,
            r.out_assets_dir is None,
            r.out_public_dir is None,
            r.out_dir is None,
            r.release_mode == ReleaseMode::Development,
    {
        Creme {
            public_dir: None,
            assets: None,
            out_assets_dir: None,
            out_public_dir: None,
            out_dir: None,
            release_mode: ReleaseMode::Development,
        }
    }
}

impl Creme {
    /// The recommended settings: the release mode that `debug_assertions`
    /// calls for, then [`Creme::default_config`] over the files found under
    /// `assets`.
    pub fn recommended(self, debug_assertions: bool, asset_files: Vec<String>) -> (r: CremeResult<Creme>)
        ensures
            r matches Ok(c) ==> c.release_mode == (if debug_assertions {
                ReleaseMode::Development
            } else {
                ReleaseMode::Release { hashed: true, flatten: false }
            }) && opt_view(c.public_dir) == Some("public"@) && opt_view(c.out_public_dir) == Some(
                "public"@,
            ) && opt_view(c.out_assets_dir) == Some("assets"@) && c.out_dir == self.out_dir && (
            c.assets matches Some(a) && a.selected_from("assets"@, asset_files@)),
            r is Ok <==> crate::source::all_keyed(
                "assets"@,
                crate::source::string_views(asset_files@),
                Some(seq!['_']),
            ),
            r matches Err(e) ==> e is InvalidFileName,
    {
        self.detect_release_mode(debug_assertions).default_config(asset_files)
    }

    /// Development mode when built with debug assertions, release otherwise.
    pub fn detect_release_mode(self, debug_assertions: bool) -> (r: Creme)
        ensures
            r.release_mode == (if debug_assertions {
                ReleaseMode::Development
            } else {
                ReleaseMode::Release { hashed: true, flatten: false }
            }),
            r.public_dir == self.public_dir,
            r.assets == self.assets,
            r.out_assets_dir == self.out_assets_dir,
            r.out_public_dir == self.out_public_dir,
            r.out_dir == self.out_dir,
    {
        if debug_assertions {
            self.development()
        } else {
            self.release()
        }
    }

    /// `public` copied to `public`, assets from `assets` (the files found
    /// there are `asset_files`) written to `assets`.
    pub fn default_config(self, asset_files: Vec<String>) -> (r: CremeResult<Creme>)
        ensures
            r matches Ok(c) ==> opt_view(c.public_dir) == Some("public"@) && opt_view(
                c.out_public_dir,
            ) == Some("public"@) && opt_view(c.out_assets_dir) == Some("assets"@)
                && c.release_mode == self.release_mode && c.out_dir == self.out_dir && (
            c.assets matches Some(a) && a.selected_from("assets"@, asset_files@)),
            r is Ok <==> crate::source::all_keyed(
                "assets"@,
                crate::source::string_views(asset_files@),
                Some(seq!['_']),
            ),
            r matches Err(e) ==> e is InvalidFileName,
    {
        proof {
            reveal_strlit("assets");
        }
        let c = self.set_public_dir("public".to_string());
        let c = match c.set_assets_dir("assets".to_string(), asset_files) {
            Ok(c) => c,
            Err(e) => return Err(e),
        };
        Ok(c.set_out_public_dir("public".to_string()).set_out_assets_dir("assets".to_string()))
    }

    /// Release mode, with hashed names and the directory layout kept.
    pub fn release(self) -> (r: Creme)
        ensures
            r.release_mode == (ReleaseMode::Release { hashed: true, flatten: false }),
            r.public_dir == self.public_dir,
            r.assets == self.assets,
            r.out_assets_dir == self.out_assets_dir,
            r.out_public_dir == self.out_public_dir,
            r.out_dir == self.out_dir,
    {
        Creme { release_mode: ReleaseMode::Release { hashed: true, flatten: false }, ..self }
    }

    /// Development mode.
    pub fn development(self) -> (r: Creme)
        ensures
            r.release_mode == ReleaseMode::Development,
            r.public_dir == self.public_dir,
            r.assets == self.assets,
            r.out_assets_dir == self.out_assets_dir,
            r.out_public_dir == self.out_public_dir,
            r.out_dir == self.out_dir,
    {
        Creme { release_mode: ReleaseMode::Development, ..self }
    }

    /// Any release mode, such as one that flattens the output directory.
    pub fn set_release_mode(self, release_mode: ReleaseMode) -> (r: Creme)
        ensures
            r.release_mode == release_mode,
            r.public_dir == self.public_dir,
            r.assets == self.assets,
            r.out_assets_dir == self.out_assets_dir,
            r.out_public_dir == self.out_public_dir,
            r.out_dir == self.out_dir,
    {
        Creme { release_mode, ..self }
    }

    pub fn set_public_dir(self, public_dir: String) -> (r: Creme)
        ensures
            opt_view(r.public_dir) == Some(public_dir@),
            r.assets == self.assets,
            r.out_assets_dir == self.out_assets_dir,
            r.out_public_dir == self.out_public_dir,
            r.out_dir == self.out_dir,
            r.release_mode == self.release_mode,
    {
        Creme { public_dir: Some(public_dir), ..self }
    }

    pub fn set_out_assets_dir(self, out_assets_dir: String) -> (r: Creme)
        ensures
            opt_view(r.out_assets_dir) == Some(out_assets_dir@),
            r.public_dir == self.public_dir,
            r.assets == self.assets,
            r.out_public_dir == self.out_public_dir,
            r.out_dir == self.out_dir,
            r.release_mode == self.release_mode,
    {
        Creme { out_assets_dir: Some(out_assets_dir), ..self }
    }

    pub fn set_out_public_dir(self, out_public_dir: String) -> (r: Creme)
        ensures
            opt_view(r.out_public_dir) == Some(out_public_dir@),
            r.public_dir == self.public_dir,
            r.assets == self.assets,
            r.out_assets_dir == self.out_assets_dir,
            r.out_dir == self.out_dir,
            r.release_mode == self.release_mode,
    {
        Creme { out_public_dir: Some(out_public_dir), ..self }
    }

    pub fn out_dir(self, out_dir: String) -> (r: Creme)
        ensures
            opt_view(r.out_dir) == Some(out_dir@),
            r.public_dir == self.public_dir,
            r.assets == self.assets,
            r.out_assets_dir == self.out_assets_dir,
            r.out_public_dir == self.out_public_dir,
            r.release_mode == self.release_mode,
    {
        Creme { out_dir: Some(out_dir), ..self }
    }

    /// The asset root `assets_dir`, with the files found under it.
    pub fn set_assets_dir(self, assets_dir: String, files: Vec<String>) -> (r: CremeResult<Creme>)
        ensures
            r matches Ok(c) ==> c.assets matches Some(a) && a.selected_from(assets_dir@, files@)
                && c.public_dir == self.public_dir && c.out_assets_dir == self.out_assets_dir
                && c.out_public_dir == self.out_public_dir && c.out_dir == self.out_dir
                && c.release_mode == self.release_mode,
            r is Ok <==> crate::source::all_keyed(
                assets_dir@,
                crate::source::string_views(files@),
                Some(seq!['_']),
            ),
            r matches Err(e) ==> e is InvalidFileName,
    {
        match AssetSource::from_asset_dir(assets_dir, files) {
            Ok(a) => Ok(Creme { assets: Some(a), ..self }),
            Err(e) => Err(e),
        }
    }

    /// The complete configuration.
    pub fn build(self) -> (r: CremeBundler)
        requires
            self.public_dir is Some,
            self.assets is Some,
            self.out_assets_dir is Some,
            self.out_public_dir is Some,
            self.out_dir is Some,
        ensures
            r.public_dir == self.public_dir->0,
            r.assets == self.assets->0,
            r.out_assets_dir == self.out_assets_dir->0,
            r.out_public_dir == self.out_public_dir->0,
            r.out_dir == self.out_dir->0,
            r.release_mode == self.release_mode,
    {
        let Creme { public_dir, assets, out_assets_dir, out_public_dir, out_dir, release_mode } = self;
        CremeBundler {
            public_dir: public_dir.unwrap(),
            assets: assets.unwrap(),
            out_assets_dir: out_assets_dir.unwrap(),
            out_public_dir: out_public_dir.unwrap(),
            out_dir: out_dir.unwrap(),
            release_mode,
        }
    }
}

/// Whether some file in `files` is published at `path`.
fn path_taken(files: &Vec<PublishedFile>, path: &String) -> (r: bool)
    ensures
        r == exists|a: int| 0 <= a < files@.len() && #[trigger] files@[a].path@ == path@,
{
    let n = files.len();
    for a in 0..n
        invariant
            n == files@.len(),
            forall|b: int| 0 <= b < a ==> files@[b].path@ != path@,
    {
        if files[a].path == *path {
            return true;
        }
    }
    false
}

fn copy_bytes(v: &[u8]) -> (r: Vec<u8>)
    ensures
        r@ == v@,
{
    let mut r: Vec<u8> = Vec::new();
    let n = v.len();
    for i in 0..n
        invariant
            n == v@.len(),
            r@ == v@.take(i as int),
    {
        r.push(v[i]);
        assert(v@.take(i + 1) == v@.take(i as int).push(v@[i as int]));
    }
    assert(v@.take(n as int) == v@);
    r
}

proof fn lemma_dep_target_grows(
    root: Seq<char>,
    file_path: Seq<char>,
    url: Seq<char>,
    m1: Map<Seq<char>, Seq<char>>,
    m2: Map<Seq<char>, Seq<char>>,
)
    requires
        m1.submap_of(m2),
        dep_target(root, file_path, url, m1) is Some,
    ensures
        dep_target(root, file_path, url, m2) == dep_target(root, file_path, url, m1),
{
}

/// A rewrite that succeeds against a manifest gives the same text against
/// any manifest that extends it.
proof fn lemma_rewritten_grows(
    code: Seq<char>,
    deps: Seq<(Seq<char>, Seq<char>, Seq<char>)>,
    root: Seq<char>,
    m1: Map<Seq<char>, Seq<char>>,
    m2: Map<Seq<char>, Seq<char>>,
)
    requires
        m1.submap_of(m2),
        rewritten(code, deps, root, m1) is Some,
    ensures
        rewritten(code, deps, root, m2) == rewritten(code, deps, root, m1),
    decreases deps.len(),
{
    if deps.len() > 0 {
        lemma_rewritten_grows(code, deps.drop_last(), root, m1, m2);
        let d = deps.last();
        lemma_dep_target_grows(root, d.1, d.2, m1, m2);
    }
}

impl CremeBundler {
    /// The logical key of the `i`-th asset, opaque assets first.
    pub open spec fn key_at(&self, i: int) -> Seq<char> {
        (self.assets.sources@ + self.assets.css_sources@)[i].key@
    }

    pub open spec fn asset_count(&self) -> nat {
        self.assets.sources@.len() + self.assets.css_sources@.len()
    }

    /// No two assets share a logical key.
    pub open spec fn keys_distinct(&self) -> bool {
        forall|i: int, j: int|
            0 <= i < j < self.asset_count() ==> self.key_at(i) != self.key_at(j)
    }

    /// No two assets share a file name (the last segment of the key).
    pub open spec fn file_names_distinct(&self) -> bool {
        forall|i: int, j: int|
            0 <= i < j < self.asset_count() ==> key_file_name(self.key_at(i)) != key_file_name(
                self.key_at(j),
            )
    }

    /// `m` maps each opaque asset to the path its bytes in `contents` publish at.
    pub open spec fn holds_opaque(
        &self,
        contents: Seq<Vec<u8>>,
        hashed: bool,
        flatten: bool,
        m: Map<Seq<char>, Seq<char>>,
    ) -> bool {
        forall|i: int|
            0 <= i < self.assets.sources@.len() ==> m.contains_key(
                #[trigger] self.assets.sources@[i].key@,
            ) && m[self.assets.sources@[i].key@] == published_path(
                self.assets.sources@[i].key@,
                contents[i]@,
                hashed,
                flatten,
            )
    }

    /// Every reference in every stylesheet resolves once the opaque assets
    /// are registered.
    pub open spec fn references_resolve(
        &self,
        contents: Seq<Vec<u8>>,
        stylesheets: Seq<BundledStylesheet>,
        hashed: bool,
        flatten: bool,
    ) -> bool {
        forall|j: int, m: Map<Seq<char>, Seq<char>>|
            0 <= j < stylesheets.len() && #[trigger] self.holds_opaque(contents, hashed, flatten, m)
                ==> (#[trigger] rewritten(
                stylesheets[j].code@,
                dep_views(stylesheets[j].dependencies@),
                self.assets.src_dir@,
                m,
            )) is Some
    }

    /// The release build's result `out` publishes every asset: opaque ones
    /// with the bytes in `contents`, stylesheets rewritten against the
    /// manifest; the manifest has one entry per asset and no other.
    pub open spec fn publishes(
        &self,
        contents: Seq<Vec<u8>>,
        stylesheets: Seq<BundledStylesheet>,
        hashed: bool,
        flatten: bool,
        out: BuildOutput,
    ) -> bool {
        let m = out.manifest@;
        let ns = self.assets.sources@.len();
        &&& out.manifest.wf()
        &&& out.files@.len() == self.asset_count()
        &&& forall|k: Seq<char>|
            m.contains_key(k) <==> exists|i: int| 0 <= i < self.asset_count() && #[trigger] self.key_at(i) == k
        &&& forall|i: int|
            0 <= i < self.asset_count() ==> {
                &&& (#[trigger] out.files@[i]).key@ == self.key_at(i)
                &&& m.contains_key(self.key_at(i))
                &&& m[self.key_at(i)] == out.files@[i].path@
                &&& out.files@[i].path@ == published_path(
                    self.key_at(i),
                    out.files@[i].content@,
                    hashed,
                    flatten,
                )
            }
        &&& forall|a: int, b: int|
            0 <= a < b < self.asset_count() ==> out.files@[a].path@ != out.files@[b].path@
        &&& forall|i: int| 0 <= i < ns ==> (#[trigger] out.files@[i]).content@ == contents[i]@
        &&& forall|j: int|
            0 <= j < stylesheets.len() ==> #[trigger] self.publishes_stylesheet(stylesheets, out, j)
    }

    /// The `j`-th stylesheet is published as its rewrite against the final
    /// manifest, encoded in UTF-8.
    pub open spec fn publishes_stylesheet(
        &self,
        stylesheets: Seq<BundledStylesheet>,
        out: BuildOutput,
        j: int,
    ) -> bool {
        exists|t: Seq<char>|
            rewritten(
                stylesheets[j].code@,
                dep_views(stylesheets[j].dependencies@),
                self.assets.src_dir@,
                out.manifest@,
            ) == Some(t) && out.files@[self.assets.sources@.len() + j].content@ == encode_utf8(t)
    }

    /// The release build from the bytes of the opaque assets (`contents`, in
    /// the order of `assets.sources`) and the bundled stylesheets (in the
    /// order of `assets.css_sources`). Opaque assets are published first, so
    /// that stylesheets can refer to them. In development mode nothing is
    /// published.
    pub fn bundle(&self, contents: &Vec<Vec<u8>>, stylesheets: &Vec<BundledStylesheet>) -> (r: Result<
        BuildOutput,
        CremeError,
    >)
        requires
            self.assets.wf(),
            contents@.len() == self.assets.sources@.len(),
            stylesheets@.len() == self.assets.css_sources@.len(),
        ensures
            self.release_mode is Development ==> (r matches Ok(out) && out.files@.len() == 0
                && out.manifest@ == Map::<Seq<char>, Seq<char>>::empty()),
            self.release_mode matches ReleaseMode::Release { hashed, flatten } ==> {
                &&& r matches Ok(out) ==> self.keys_distinct() && self.publishes(
                    contents@,
                    stylesheets@,
                    hashed,
                    flatten,
                    out,
                )
                &&& self.keys_distinct() && self.references_resolve(
                    contents@,
                    stylesheets@,
                    hashed,
                    flatten,
                ) && (!flatten || self.file_names_distinct()) ==> r is Ok
                &&& self.references_resolve(contents@, stylesheets@, hashed, flatten) ==> (
                r matches Err(e) ==> (e is DuplicateKey || e is PathCollision))
                &&& r matches Err(e) ==> (e is DuplicateKey || e is PathCollision
                    || e is UnresolvedReference || e is InvalidFileName)
            },
    {
        match self.release_mode {
            ReleaseMode::Development => Ok(BuildOutput { files: Vec::new(), manifest: Manifest::new() }),
            ReleaseMode::Release { hashed, flatten } => self.publish_all(
                contents,
                stylesheets,
                hashed,
                flatten,
            ),
        }
    }

    fn publish_all(
        &self,
        contents: &Vec<Vec<u8>>,
        stylesheets: &Vec<BundledStylesheet>,
        hashed: bool,
        flatten: bool,
    ) -> (r: Result<BuildOutput, CremeError>)
        requires
            self.assets.wf(),
            contents@.len() == self.assets.sources@.len(),
            stylesheets@.len() == self.assets.css_sources@.len(),
        ensures
            r matches Ok(out) ==> self.keys_distinct() && self.publishes(
                contents@,
                stylesheets@,
                hashed,
                flatten,
                out,
            ),
            self.keys_distinct() && self.references_resolve(
                contents@,
                stylesheets@,
                hashed,
                flatten,
            ) && (!flatten || self.file_names_distinct()) ==> r is Ok,
            self.references_resolve(contents@, stylesheets@, hashed, flatten) ==> (r matches Err(
                e,
            ) ==> (e is DuplicateKey || e is PathCollision)),
            r matches Err(e) ==> (e is DuplicateKey || e is PathCollision
                || e is UnresolvedReference || e is InvalidFileName),
    {
        let ns = self.assets.sources.len();
        let nc = self.assets.css_sources.len();
        let mut manifest = Manifest::new();
        let mut files: Vec<PublishedFile> = Vec::new();
        let ghost mut texts: Seq<Seq<char>> = Seq::empty();
        for i in 0..ns
            invariant
                ns == self.assets.sources@.len(),
                nc == self.assets.css_sources@.len(),
                contents@.len() == ns,
                self.assets.wf(),
                manifest.wf(),
                files@.len() == i,
                forall|a: int, b: int| 0 <= a < b < i ==> files@[a].path@ != files@[b].path@,
                forall|a: int|
                    0 <= a < i ==> valid_file_name(key_file_name((#[trigger] files@[a]).key@)) && (
                    hashed ==> digest_text(files@[a].content@).len() == 8 && is_digest_text(
                        digest_text(files@[a].content@),
                    )),
                forall|k: Seq<char>|
                    manifest@.contains_key(k) <==> exists|a: int| 0 <= a < i && #[trigger] self.key_at(a) == k,
                forall|a: int, b: int| 0 <= a < b < i ==> self.key_at(a) != self.key_at(b),
                forall|a: int|
                    0 <= a < i ==> {
                        &&& (#[trigger] files@[a]).key@ == self.key_at(a)
                        &&& manifest@.contains_key(self.key_at(a))
                        &&& manifest@[self.key_at(a)] == files@[a].path@
                        &&& files@[a].path@ == published_path(
                            self.key_at(a),
                            files@[a].content@,
                            hashed,
                            flatten,
                        )
                        &&& files@[a].content@ == contents@[a]@
                    },
        {
            let asset: &Asset = &self.assets.sources[i];
            assert(self.key_at(i as int) == asset.key@);
            proof {
                assert(asset.describes(self.assets.src_dir@));
                crate::key::lemma_key_file_name(self.assets.src_dir@, asset.path@);
            }
            if manifest.lookup(&asset.key).is_some() {
                return Err(CremeError::DuplicateKey(asset.key.clone()));
            }
            let content = copy_bytes(contents[i].as_slice());
            let path = publish_path(asset.key.as_str(), content.as_slice(), hashed, flatten);
            if path_taken(&files, &path) {
                proof {
                    if !flatten {
                        let a = choose|a: int| 0 <= a < files@.len() && #[trigger] files@[a].path@ == path@;
                        lemma_published_path_injective(
                            self.key_at(a),
                            files@[a].content@,
                            asset.key@,
                            content@,
                            hashed,
                        );
                        assert(self.key_at(a) == self.key_at(i as int));
                    } else if self.file_names_distinct() {
                        let a = choose|a: int| 0 <= a < files@.len() && #[trigger] files@[a].path@ == path@;
                        lemma_published_name_injective(
                            self.key_at(a),
                            files@[a].content@,
                            asset.key@,
                            content@,
                            hashed,
                        );
                        assert(key_file_name(self.key_at(a)) == key_file_name(self.key_at(i as int)));
                    }
                }
                return Err(CremeError::PathCollision(path));
            }
            let ghost m0 = manifest@;
            manifest.register(asset.key.clone(), path.clone());
            files.push(PublishedFile { key: asset.key.clone(), path, content });
            assert forall|k: Seq<char>|
                manifest@.contains_key(k) <==> exists|a: int| 0 <= a < i + 1 && #[trigger] self.key_at(a) == k by {
                if manifest@.contains_key(k) && k != asset.key@ {
                    assert(m0.contains_key(k));
                }
                if exists|a: int| 0 <= a < i + 1 && #[trigger] self.key_at(a) == k {
                    let a = choose|a: int| 0 <= a < i + 1 && #[trigger] self.key_at(a) == k;
                    if a < i {
                        assert(m0.contains_key(k));
                    }
                }
            }
            assert forall|a: int| 0 <= a < i implies #[trigger] self.key_at(a) != self.key_at(i as int) by {
                assert(m0.contains_key(self.key_at(a)));
            }
        }
        assert(self.holds_opaque(contents@, hashed, flatten, manifest@)) by {
            assert forall|a: int| 0 <= a < ns implies manifest@.contains_key(
                #[trigger] self.assets.sources@[a].key@,
            ) && manifest@[self.assets.sources@[a].key@] == published_path(
                self.assets.sources@[a].key@,
                contents@[a]@,
                hashed,
                flatten,
            ) by {
                assert(self.key_at(a) == self.assets.sources@[a].key@);
                assert(files@[a].key@ == self.key_at(a));
            }
        }
        for j in 0..nc
            invariant
                ns == self.assets.sources@.len(),
                nc == self.assets.css_sources@.len(),
                contents@.len() == ns,
                stylesheets@.len() == nc,
                self.assets.wf(),
                manifest.wf(),
                files@.len() == ns + j,
                forall|a: int, b: int| 0 <= a < b < ns + j ==> files@[a].path@ != files@[b].path@,
                forall|a: int|
                    0 <= a < ns + j ==> valid_file_name(key_file_name((#[trigger] files@[a]).key@)) && (
                    hashed ==> digest_text(files@[a].content@).len() == 8 && is_digest_text(
                        digest_text(files@[a].content@),
                    )),
                texts.len() == j,
                self.holds_opaque(contents@, hashed, flatten, manifest@),
                forall|k: Seq<char>|
                    manifest@.contains_key(k) <==> exists|a: int| 0 <= a < ns + j && #[trigger] self.key_at(a) == k,
                forall|a: int, b: int| 0 <= a < b < ns + j ==> self.key_at(a) != self.key_at(b),
                forall|a: int|
                    0 <= a < ns + j ==> {
                        &&& (#[trigger] files@[a]).key@ == self.key_at(a)
                        &&& manifest@.contains_key(self.key_at(a))
                        &&& manifest@[self.key_at(a)] == files@[a].path@
                        &&& files@[a].path@ == published_path(
                            self.key_at(a),
                            files@[a].content@,
                            hashed,
                            flatten,
                        )
                    },
                forall|a: int| 0 <= a < ns ==> (#[trigger] files@[a]).content@ == contents@[a]@,
                forall|b: int|
                    0 <= b < j ==> rewritten(
                        stylesheets@[b].code@,
                        dep_views(stylesheets@[b].dependencies@),
                        self.assets.src_dir@,
                        manifest@,
                    ) == Some(#[trigger] texts[b]) && files@[ns + b].content@ == encode_utf8(texts[b]),
        {
            let asset: &Asset = &self.assets.css_sources[j];
            assert(self.key_at(ns + j) == asset.key@);
            proof {
                assert(asset.describes(self.assets.src_dir@));
                crate::key::lemma_key_file_name(self.assets.src_dir@, asset.path@);
            }
            if manifest.lookup(&asset.key).is_some() {
                proof {
                    let k = asset.key@;
                    let a = choose|a: int| 0 <= a < ns + j && #[trigger] self.key_at(a) == k;
                    assert(!self.keys_distinct());
                }
                return Err(CremeError::DuplicateKey(asset.key.clone()));
            }
            let text = match process_css(&stylesheets[j], self.assets.src_dir.as_str(), &manifest) {
                Ok(text) => text,
                Err(e) => {
                    proof {
                        if self.references_resolve(
                            contents@,
                            stylesheets@,
                            hashed,
                            flatten,
                        ) {
                            assert(rewritten(
                                stylesheets@[j as int].code@,
                                dep_views(stylesheets@[j as int].dependencies@),
                                self.assets.src_dir@,
                                manifest@,
                            ) is Some);
                        }
                    }
                    return Err(e);
                },
            };
            let content = text.as_str().as_bytes_vec();
            let path = publish_path(asset.key.as_str(), content.as_slice(), hashed, flatten);
            if path_taken(&files, &path) {
                proof {
                    if !flatten {
                        let a = choose|a: int| 0 <= a < files@.len() && #[trigger] files@[a].path@ == path@;
                        lemma_published_path_injective(
                            self.key_at(a),
                            files@[a].content@,
                            asset.key@,
                            content@,
                            hashed,
                        );
                        assert(self.key_at(a) == self.key_at(ns + j));
                    } else if self.file_names_distinct() {
                        let a = choose|a: int| 0 <= a < files@.len() && #[trigger] files@[a].path@ == path@;
                        lemma_published_name_injective(
                            self.key_at(a),
                            files@[a].content@,
                            asset.key@,
                            content@,
                            hashed,
                        );
                        assert(key_file_name(self.key_at(a)) == key_file_name(self.key_at(ns + j)));
                    }
                }
                return Err(CremeError::PathCollision(path));
            }
            let ghost m0 = manifest@;
            manifest.register(asset.key.clone(), path.clone());
            proof {
                assert(m0.submap_of(manifest@));
                assert forall|b: int| 0 <= b < j implies rewritten(
                    stylesheets@[b].code@,
                    dep_views(stylesheets@[b].dependencies@),
                    self.assets.src_dir@,
                    manifest@,
                ) == Some(#[trigger] texts[b]) by {
                    assert(rewritten(
                        stylesheets@[b].code@,
                        dep_views(stylesheets@[b].dependencies@),
                        self.assets.src_dir@,
                        m0,
                    ) == Some(texts[b]));
                    lemma_rewritten_grows(
                        stylesheets@[b].code@,
                        dep_views(stylesheets@[b].dependencies@),
                        self.assets.src_dir@,
                        m0,
                        manifest@,
                    );
                }
                lemma_rewritten_grows(
                    stylesheets@[j as int].code@,
                    dep_views(stylesheets@[j as int].dependencies@),
                    self.assets.src_dir@,
                    m0,
                    manifest@,
                );
                texts = texts.push(text@);
            }
            files.push(PublishedFile { key: asset.key.clone(), path, content });
            assert forall|k: Seq<char>|
                manifest@.contains_key(k) <==> exists|a: int|
                    0 <= a < ns + j + 1 && #[trigger] self.key_at(a) == k by {
                if manifest@.contains_key(k) && k != asset.key@ {
                    assert(m0.contains_key(k));
                }
                if exists|a: int| 0 <= a < ns + j + 1 && #[trigger] self.key_at(a) == k {
                    let a = choose|a: int| 0 <= a < ns + j + 1 && #[trigger] self.key_at(a) == k;
                    if a < ns + j {
                        assert(m0.contains_key(k));
                    }
                }
            }
            assert forall|a: int| 0 <= a < ns + j implies #[trigger] self.key_at(a) != self.key_at(ns + j) by {
                assert(m0.contains_key(self.key_at(a)));
            }
        }
        let out = BuildOutput { files, manifest };
        proof {
            assert forall|b: int| 0 <= b < stylesheets@.len() implies #[trigger] self.publishes_stylesheet(
                stylesheets@,
                out,
                b,
            ) by {
                assert(rewritten(
                    stylesheets@[b].code@,
                    dep_views(stylesheets@[b].dependencies@),
                    self.assets.src_dir@,
                    out.manifest@,
                ) == Some(texts[b]));
                assert(out.files@[ns + b].content@ == encode_utf8(texts[b]));
            }
        }
        Ok(out)
    }
}

/// In a successful release build, each discovered asset, stylesheet or not,
/// has exactly one manifest entry: the one under its root-relative logical
/// key, which is published at the path the file list names.
pub proof fn lemma_manifest_complete(
    b: CremeBundler,
    contents: Seq<Vec<u8>>,
    stylesheets: Seq<BundledStylesheet>,
    hashed: bool,
    flatten: bool,
    out: BuildOutput,
)
    requires
        b.assets.wf(),
        b.keys_distinct(),
        b.publishes(contents, stylesheets, hashed, flatten, out),
    ensures
        out.manifest@.dom().len() == b.asset_count(),
        forall|i: int|
            0 <= i < b.assets.sources@.len() ==> {
                let a = #[trigger] b.assets.sources@[i];
                &&& key_of(b.assets.src_dir@, a.path@) == Some(a.key@)
                &&& out.manifest@.contains_key(a.key@)
                &&& out.manifest@[a.key@] == out.files@[i].path@
            },
        forall|j: int|
            0 <= j < b.assets.css_sources@.len() ==> {
                let a = #[trigger] b.assets.css_sources@[j];
                &&& key_of(b.assets.src_dir@, a.path@) == Some(a.key@)
                &&& out.manifest@.contains_key(a.key@)
                &&& out.manifest@[a.key@] == out.files@[b.assets.sources@.len() + j].path@
            },
{
    let n = b.asset_count();
    let keys = Seq::new(n, |i: int| b.key_at(i));
    assert forall|i: int, j: int| 0 <= i < j < keys.len() implies keys[i] != keys[j] by {
        assert(b.key_at(i) != b.key_at(j));
    }
    keys.unique_seq_to_set();
    assert(keys.to_set() =~= out.manifest@.dom()) by {
        assert forall|k: Seq<char>| keys.to_set().contains(k) implies out.manifest@.dom().contains(k) by {
            let i = choose|i: int| 0 <= i < keys.len() && keys[i] == k;
            assert(b.key_at(i) == k);
        }
        assert forall|k: Seq<char>| out.manifest@.dom().contains(k) implies keys.to_set().contains(k) by {
            let i = choose|i: int| 0 <= i < n && #[trigger] b.key_at(i) == k;
            assert(keys[i] == k);
        }
    }
    let ns = b.assets.sources@.len();
    assert forall|i: int| 0 <= i < ns implies {
        let a = #[trigger] b.assets.sources@[i];
        &&& key_of(b.assets.src_dir@, a.path@) == Some(a.key@)
        &&& out.manifest@.contains_key(a.key@)
        &&& out.manifest@[a.key@] == out.files@[i].path@
    } by {
        assert(b.key_at(i) == b.assets.sources@[i].key@);
        assert(out.files@[i].key@ == b.key_at(i));
    }
    assert forall|j: int| 0 <= j < b.assets.css_sources@.len() implies {
        let a = #[trigger] b.assets.css_sources@[j];
        &&& key_of(b.assets.src_dir@, a.path@) == Some(a.key@)
        &&& out.manifest@.contains_key(a.key@)
        &&& out.manifest@[a.key@] == out.files@[ns + j].path@
    } by {
        assert(b.key_at(ns + j) == b.assets.css_sources@[j].key@);
        assert(out.files@[ns + j].key@ == b.key_at(ns + j));
    }
}

} // verus!
