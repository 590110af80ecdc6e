use std::collections::HashMap;
use std::path::{Path, PathBuf};

use creme::bundler::{BuildOutput, Creme, CremeBundler, ReleaseMode};
use creme::css::{process_css, resolve_url, BundledStylesheet, Dependency};
use creme::digest::{apply_digest, digest_hex, filename_with_hash};
use creme::error::CremeError;
use creme::key::{is_external, logical_key};
use creme::manifest::{asset, Manifest};
use creme::publish::publish_path;
use creme::serve::asset_request_path;
use creme::source::{AssetSource, AssetType};

use lightningcss::bundler::{Bundler, ResolveResult, SourceProvider};
use lightningcss::dependencies::{Dependency as CssDependency, DependencyOptions};
use lightningcss::stylesheet::{ParserOptions, PrinterOptions};

/// Stylesheet sources held in memory, keyed by path.
struct MemoryFiles {
    files: HashMap<PathBuf, String>,
}

impl SourceProvider for MemoryFiles {
    type Error = std::io::Error;

    fn read<'a>(&'a self, file: &Path) -> Result<&'a str, Self::Error> {
        self.files
            .get(file)
            .map(|s| s.as_str())
            .ok_or_else(|| std::io::Error::new(std::io::ErrorKind::NotFound, "no such file"))
    }

    fn resolve(&self, specifier: &str, originating_file: &Path) -> Result<ResolveResult, Self::Error> {
        Ok(ResolveResult::File(originating_file.with_file_name(specifier)))
    }
}

fn bundle_in_memory(files: &[(&str, &str)], entry: &str) -> BundledStylesheet {
    let provider = MemoryFiles {
        files: files
            .iter()
            .map(|(p, c)| (PathBuf::from(p), c.to_string()))
            .collect(),
    };
    let mut bundler = Bundler::new(&provider, None, ParserOptions::default());
    let sheet = bundler.bundle(Path::new(entry)).unwrap();
    let css = sheet
        .to_css(PrinterOptions {
            minify: true,
            analyze_dependencies: Some(DependencyOptions { remove_imports: false }),
            ..PrinterOptions::default()
        })
        .unwrap();
    let dependencies = css
        .dependencies
        .unwrap()
        .into_iter()
        .map(|d| match d {
            CssDependency::Url(u) => Dependency {
                placeholder: u.placeholder,
                file_path: u.loc.file_path,
                url: u.url,
            },
            CssDependency::Import(i) => Dependency {
                placeholder: i.placeholder,
                file_path: i.loc.file_path,
                url: i.url,
            },
        })
        .collect();
    BundledStylesheet { code: css.code, dependencies }
}

fn strings(v: &[&str]) -> Vec<String> {
    v.iter().map(|s| s.to_string()).collect()
}

fn release_bundler(files: &[&str], mode: ReleaseMode) -> CremeBundler {
    Creme::new()
        .set_assets_dir("assets".to_string(), strings(files))
        .unwrap()
        .set_public_dir("public".to_string())
        .set_out_public_dir("public".to_string())
        .set_out_assets_dir("assets".to_string())
        .out_dir("out".to_string())
        .set_release_mode(mode)
        .build()
}

fn find<'a>(out: &'a BuildOutput, key: &str) -> &'a creme::bundler::PublishedFile {
    out.files.iter().find(|f| f.key == key).unwrap()
}

#[test]
fn digest_is_deterministic_and_content_sensitive() {
    let a = digest_hex(b"body { color: red; }");
    let b = digest_hex(b"body { color: red; }");
    let c = digest_hex(b"body { color: rEd; }");
    assert_eq!(a, b);
    assert_ne!(a, c);
    assert_eq!(a.len(), 8);
    assert!(a.chars().all(|ch| ch.is_ascii_hexdigit() && !ch.is_ascii_uppercase()));
}

#[test]
fn digest_of_known_inputs() {
    assert_eq!(digest_hex(b""), "af1349b9");
    assert_eq!(digest_hex(b"abc"), "6437b3ac");
}

#[test]
fn splice_before_extension() {
    assert_eq!(apply_digest("style.css", "0a1b2c3d"), "style-0a1b2c3d.css");
    assert_eq!(apply_digest("archive.tar.gz", "0a1b2c3d"), "archive.tar-0a1b2c3d.gz");
    assert_eq!(apply_digest("LICENSE", "0a1b2c3d"), "LICENSE-0a1b2c3d");
    assert_eq!(apply_digest(".profile", "0a1b2c3d"), ".profile-0a1b2c3d");
}

#[test]
fn splice_twice_keeps_both_digests() {
    let once = apply_digest("a.css", "11111111");
    let twice = apply_digest(&once, "22222222");
    assert_eq!(twice, "a-11111111-22222222.css");
    assert_ne!(apply_digest("a-1.css", "22"), apply_digest("a.css", "12"));
    assert_ne!(apply_digest("a.css", "12"), apply_digest("a.css", "13"));
}

#[test]
fn filename_with_hash_uses_content_digest() {
    assert_eq!(filename_with_hash("style.css", b""), "style-af1349b9.css");
    assert_eq!(filename_with_hash("cat.jpeg", b"abc"), "cat-6437b3ac.jpeg");
}

#[test]
fn publish_path_keeps_or_flattens_directories() {
    assert_eq!(publish_path("img/cat.jpeg", b"abc", true, false), "img/cat-6437b3ac.jpeg");
    assert_eq!(publish_path("img/cat.jpeg", b"abc", true, true), "cat-6437b3ac.jpeg");
    assert_eq!(publish_path("img/cat.jpeg", b"abc", false, false), "img/cat.jpeg");
    assert_eq!(publish_path("logo.png", b"abc", false, true), "logo.png");
}

#[test]
fn logical_keys_are_root_relative() {
    assert_eq!(logical_key("assets", "assets/css/style.css").as_deref(), Some("css/style.css"));
    assert_eq!(logical_key("assets/", "assets/x.png").as_deref(), Some("x.png"));
    assert_eq!(logical_key("assets", "assets\\img\\a.png").as_deref(), Some("img/a.png"));
    assert_eq!(logical_key("assets", "assets/a/./b/../c.png").as_deref(), Some("a/c.png"));
    assert_eq!(logical_key("assets", "other/x.png"), None);
    assert_eq!(logical_key("assets", "assetsx/y.png"), None);
    assert_eq!(logical_key("assets", "assets/../x.png"), None);
}

#[test]
fn external_urls_are_recognised() {
    assert!(is_external("https://cdn.example.com/x.png"));
    assert!(is_external("http://example.com/a.css"));
    assert!(!is_external("img/x.png"));
    assert!(!is_external("/https://x"));
}

#[test]
fn ignore_rule_checks_file_names_only() {
    let source = AssetSource::from_asset_dir(
        "assets".to_string(),
        strings(&["assets/_draft.css", "assets/draft.css", "assets/_private/visible.png"]),
    )
    .unwrap();
    let css: Vec<&str> = source.css_sources.iter().map(|a| a.key.as_str()).collect();
    let other: Vec<&str> = source.sources.iter().map(|a| a.key.as_str()).collect();
    assert_eq!(css, vec!["draft.css"]);
    assert_eq!(other, vec!["_private/visible.png"]);
}

#[test]
fn classification_by_media_type() {
    let source = AssetSource::from_asset_dir(
        "assets".to_string(),
        strings(&["assets/a.css", "assets/x.png", "assets/noext"]),
    )
    .unwrap();
    assert_eq!(source.css_sources.len(), 1);
    assert!(source.css_sources[0].asset_type.is_css());
    assert_eq!(source.sources.len(), 2);
    match &source.sources[0].asset_type {
        AssetType::Other(m) => assert_eq!(m, "image/png"),
        AssetType::Css => panic!("png classified as a stylesheet"),
    }
    match &source.sources[1].asset_type {
        AssetType::Other(m) => assert_eq!(m, "application/octet-stream"),
        AssetType::Css => panic!("file without extension classified as a stylesheet"),
    }
}

#[test]
fn path_outside_root_is_rejected() {
    let r = AssetSource::from_asset_dir("assets".to_string(), strings(&["elsewhere/x.png"]));
    assert!(matches!(r, Err(CremeError::InvalidFileName(p)) if p == "elsewhere/x.png"));
}

#[test]
fn manifest_last_write_wins() {
    let mut m = Manifest::new();
    m.register("a.png".to_string(), "a-1.png".to_string());
    m.register("b.png".to_string(), "b-1.png".to_string());
    m.register("a.png".to_string(), "a-2.png".to_string());
    assert_eq!(m.len(), 2);
    assert_eq!(m.lookup(&"a.png".to_string()).as_deref(), Some("a-2.png"));
    assert_eq!(m.lookup(&"c.png".to_string()), None);
}

#[test]
fn manifest_serializes_as_flat_object() {
    let mut m = Manifest::new();
    m.register("css/style.css".to_string(), "css/style-0a1b2c3d.css".to_string());
    let text = m.serialize().unwrap();
    assert_eq!(text, "{\n  \"css/style.css\": \"css/style-0a1b2c3d.css\"\n}");
    let parsed: HashMap<String, String> = serde_json::from_str(&text).unwrap();
    assert_eq!(parsed.len(), 1);
    assert_eq!(Manifest::new().serialize().unwrap(), "{}");
}

#[test]
fn asset_paths_by_manifest_or_convention() {
    let mut m = Manifest::new();
    m.register("logo.png".to_string(), "logo-0a1b2c3d.png".to_string());
    assert_eq!(asset(None, &"logo.png".to_string()).unwrap(), "assets/logo.png");
    assert_eq!(asset(Some(&m), &"logo.png".to_string()).unwrap(), "logo-0a1b2c3d.png");
    assert!(matches!(
        asset(Some(&m), &"missing.png".to_string()),
        Err(CremeError::UnresolvedReference(_))
    ));
}

#[test]
fn external_reference_passes_through() {
    let dep = Dependency {
        placeholder: "PH".to_string(),
        file_path: "assets/a.css".to_string(),
        url: "https://cdn.example.com/x.png".to_string(),
    };
    assert_eq!(resolve_url(&dep, "assets", &Manifest::new()).unwrap(), "https://cdn.example.com/x.png");

    let bundled = bundle_in_memory(
        &[("assets/a.css", ".a { background: url(https://cdn.example.com/x.png); }")],
        "assets/a.css",
    );
    let out = process_css(&bundled, "assets", &Manifest::new()).unwrap();
    assert!(out.contains("https://cdn.example.com/x.png"));
    assert!(!out.contains("/https:"));
}

#[test]
fn relative_reference_resolves_through_manifest() {
    let mut m = Manifest::new();
    m.register("img/cat.jpeg".to_string(), "img/cat-0a1b2c3d.jpeg".to_string());
    let dep = Dependency {
        placeholder: "PH".to_string(),
        file_path: "assets/css/style.css".to_string(),
        url: "../img/cat.jpeg".to_string(),
    };
    assert_eq!(resolve_url(&dep, "assets", &m).unwrap(), "img/cat-0a1b2c3d.jpeg");
    let rooted = Dependency { url: "/img/cat.jpeg".to_string(), ..dep };
    assert_eq!(resolve_url(&rooted, "assets", &m).unwrap(), "img/cat-0a1b2c3d.jpeg");
}

#[test]
fn unresolved_reference_is_an_error() {
    let dep = Dependency {
        placeholder: "PH".to_string(),
        file_path: "assets/a.css".to_string(),
        url: "img/missing.png".to_string(),
    };
    assert!(matches!(
        resolve_url(&dep, "assets", &Manifest::new()),
        Err(CremeError::UnresolvedReference(k)) if k == "img/missing.png"
    ));
    let escaping = Dependency { url: "../../x.png".to_string(), ..dep };
    assert!(matches!(
        resolve_url(&escaping, "assets", &Manifest::new()),
        Err(CremeError::UnresolvedReference(_))
    ));
    let outside = Dependency {
        placeholder: "PH".to_string(),
        file_path: "elsewhere/a.css".to_string(),
        url: "x.png".to_string(),
    };
    assert!(matches!(
        resolve_url(&outside, "assets", &Manifest::new()),
        Err(CremeError::InvalidFileName(_))
    ));
}

#[test]
fn placeholders_are_replaced_everywhere() {
    let mut m = Manifest::new();
    m.register("x.png".to_string(), "x-9.png".to_string());
    let bundled = BundledStylesheet {
        code: "a{b:url(QQ)}c{d:url(QQ)}".to_string(),
        dependencies: vec![Dependency {
            placeholder: "QQ".to_string(),
            file_path: "assets/s.css".to_string(),
            url: "x.png".to_string(),
        }],
    };
    assert_eq!(process_css(&bundled, "assets", &m).unwrap(), "a{b:url(/x-9.png)}c{d:url(/x-9.png)}");
}

#[test]
fn imported_stylesheet_references_are_rewritten() {
    let mut m = Manifest::new();
    let published = publish_path("img/x.png", b"png bytes", true, false);
    m.register("img/x.png".to_string(), published.clone());
    let bundled = bundle_in_memory(
        &[
            ("assets/a.css", "@import \"b.css\";\n.a { color: red; }"),
            ("assets/b.css", ".b { background: url(img/x.png); }"),
        ],
        "assets/a.css",
    );
    let out = process_css(&bundled, "assets", &m).unwrap();
    assert!(out.contains(&format!("/{}", published)));
    assert!(published.starts_with("img/x-"));
    assert!(!out.contains("url(img/x.png)"));
    assert!(out.contains(".a"));
    assert!(out.contains(".b"));
}

#[test]
fn release_build_end_to_end() {
    let bundler = release_bundler(
        &["assets/css/style.css", "assets/img/cat.jpeg"],
        ReleaseMode::Release { hashed: true, flatten: false },
    );
    let cat: Vec<u8> = b"\xff\xd8\xff cat".to_vec();
    let sheet = bundle_in_memory(
        &[("assets/css/style.css", ".cat { background: url(../img/cat.jpeg); }")],
        "assets/css/style.css",
    );
    let out = bundler.bundle(&vec![cat.clone()], &vec![sheet]).unwrap();

    let cat_digest = digest_hex(&cat);
    let cat_path = format!("img/cat-{}.jpeg", cat_digest);
    assert_eq!(out.manifest.lookup(&"img/cat.jpeg".to_string()), Some(cat_path.clone()));

    let style = find(&out, "css/style.css");
    let style_path = format!("css/style-{}.css", digest_hex(&style.content));
    assert_eq!(style.path, style_path);
    assert_eq!(out.manifest.lookup(&"css/style.css".to_string()), Some(style_path));

    let text = String::from_utf8(style.content.clone()).unwrap();
    assert!(text.contains(&format!("/{}", cat_path)));
    assert_eq!(find(&out, "img/cat.jpeg").path, cat_path);
    assert_eq!(find(&out, "img/cat.jpeg").content, cat);
    assert_eq!(out.manifest.len(), 2);
    assert_eq!(out.files.len(), 2);
}

#[test]
fn release_build_flattened_and_unhashed() {
    let flat = release_bundler(&["assets/img/a.png"], ReleaseMode::Release { hashed: true, flatten: true });
    let out = flat.bundle(&vec![b"abc".to_vec()], &vec![]).unwrap();
    assert_eq!(out.manifest.lookup(&"img/a.png".to_string()).as_deref(), Some("a-6437b3ac.png"));

    let plain = release_bundler(&["assets/img/a.png"], ReleaseMode::Release { hashed: false, flatten: false });
    let out = plain.bundle(&vec![b"abc".to_vec()], &vec![]).unwrap();
    assert_eq!(out.manifest.lookup(&"img/a.png".to_string()).as_deref(), Some("img/a.png"));
}

#[test]
fn manifest_has_one_entry_per_asset() {
    let files = ["assets/a.png", "assets/b/c.png", "assets/_skip.png", "assets/s.css"];
    let bundler = release_bundler(&files, ReleaseMode::Release { hashed: true, flatten: false });
    let sheet = BundledStylesheet { code: ".s{}".to_string(), dependencies: vec![] };
    let out = bundler.bundle(&vec![b"1".to_vec(), b"2".to_vec()], &vec![sheet]).unwrap();
    assert_eq!(out.manifest.len(), 3);
    for key in ["a.png", "b/c.png", "s.css"] {
        assert!(out.manifest.lookup(&key.to_string()).is_some());
    }
    assert_eq!(out.manifest.lookup(&"_skip.png".to_string()), None);
}

#[test]
fn duplicate_keys_fail_the_build() {
    let bundler = release_bundler(
        &["assets/a.png", "assets/./a.png"],
        ReleaseMode::Release { hashed: true, flatten: false },
    );
    let r = bundler.bundle(&vec![b"1".to_vec(), b"2".to_vec()], &vec![]);
    assert!(matches!(r, Err(CremeError::DuplicateKey(k)) if k == "a.png"));
}

#[test]
fn stylesheet_with_missing_target_fails_the_build() {
    let bundler = release_bundler(&["assets/s.css"], ReleaseMode::Release { hashed: true, flatten: false });
    let sheet = bundle_in_memory(&[("assets/s.css", ".s { background: url(gone.png); }")], "assets/s.css");
    let r = bundler.bundle(&vec![], &vec![sheet]);
    assert!(matches!(r, Err(CremeError::UnresolvedReference(k)) if k == "gone.png"));
}

#[test]
fn development_build_publishes_nothing() {
    let bundler = release_bundler(&["assets/a.png"], ReleaseMode::Development);
    let out = bundler.bundle(&vec![b"1".to_vec()], &vec![]).unwrap();
    assert!(out.files.is_empty());
    assert_eq!(out.manifest.len(), 0);
}

#[test]
fn recommended_configuration() {
    let c = Creme::new()
        .recommended(false, strings(&["assets/x.png"]))
        .unwrap();
    assert_eq!(c.release_mode, ReleaseMode::Release { hashed: true, flatten: false });
    assert_eq!(c.public_dir.as_deref(), Some("public"));
    assert_eq!(c.out_public_dir.as_deref(), Some("public"));
    assert_eq!(c.out_assets_dir.as_deref(), Some("assets"));
    assert_eq!(c.assets.as_ref().unwrap().src_dir, "assets");
    let d = Creme::new().recommended(true, vec![]).unwrap();
    assert_eq!(d.release_mode, ReleaseMode::Development);
}

#[test]
fn requests_under_assets_prefix_go_to_asset_root() {
    assert_eq!(asset_request_path("/assets/css/style.css").as_deref(), Some("/css/style.css"));
    assert_eq!(asset_request_path("/assets/x.png?v=2").as_deref(), Some("/x.png?v=2"));
    assert_eq!(asset_request_path("/assets").as_deref(), Some("/"));
    assert_eq!(asset_request_path("/assets?v=1").as_deref(), Some("/?v=1"));
    assert_eq!(asset_request_path("/index.html"), None);
    assert_eq!(asset_request_path("/asset.png"), None);
    assert_eq!(asset_request_path("/assetsx/y.png"), None);
}

#[test]
fn build_keeps_the_configuration() {
    let b = Creme::new()
        .set_assets_dir("assets".to_string(), strings(&["assets/a.png"]))
        .unwrap()
        .set_public_dir("static".to_string())
        .set_out_public_dir("dist".to_string())
        .set_out_assets_dir("files".to_string())
        .out_dir("/tmp/out".to_string())
        .development()
        .build();
    assert_eq!(b.public_dir, "static");
    assert_eq!(b.out_public_dir, "dist");
    assert_eq!(b.out_assets_dir, "files");
    assert_eq!(b.out_dir, "/tmp/out");
    assert_eq!(b.release_mode, ReleaseMode::Development);
    assert_eq!(b.assets.sources.len(), 1);
}

#[test]
fn flattened_collisions_fail_the_build() {
    let files = ["assets/a/x.png", "assets/b/x.png"];
    let hashed = release_bundler(&files, ReleaseMode::Release { hashed: true, flatten: true });
    let r = hashed.bundle(&vec![b"same".to_vec(), b"same".to_vec()], &vec![]);
    assert!(matches!(r, Err(CremeError::PathCollision(p)) if p.starts_with("x-")));
    let plain = release_bundler(&files, ReleaseMode::Release { hashed: false, flatten: true });
    let r = plain.bundle(&vec![b"1".to_vec(), b"2".to_vec()], &vec![]);
    assert!(matches!(r, Err(CremeError::PathCollision(p)) if p == "x.png"));
    let kept = release_bundler(&files, ReleaseMode::Release { hashed: false, flatten: false });
    let out = kept.bundle(&vec![b"1".to_vec(), b"2".to_vec()], &vec![]).unwrap();
    assert_eq!(out.manifest.lookup(&"b/x.png".to_string()).as_deref(), Some("b/x.png"));
}

#[test]
fn keys_must_end_in_a_file_name() {
    assert_eq!(logical_key("assets", "assets/a/.."), None);
    assert_eq!(logical_key("assets", "assets/"), None);
    assert_eq!(logical_key("assets", "assets/a/").as_deref(), Some("a"));
}

#[test]
fn serialize_always_succeeds() {
    let mut m = Manifest::new();
    m.register("b.png".to_string(), "b-1.png".to_string());
    m.register("a.png".to_string(), "a-1.png".to_string());
    assert_eq!(
        m.serialize().unwrap(),
        "{\n  \"a.png\": \"a-1.png\",\n  \"b.png\": \"b-1.png\"\n}"
    );
}

#[test]
fn css_extension_in_any_case_is_a_stylesheet() {
    let source = AssetSource::from_asset_dir(
        "assets".to_string(),
        strings(&["assets/A.CSS", "assets/b.Css", "assets/_c.css"]),
    )
    .unwrap();
    let css: Vec<&str> = source.css_sources.iter().map(|a| a.key.as_str()).collect();
    assert_eq!(css, vec!["A.CSS", "b.Css"]);
    assert!(source.sources.is_empty());
}

#[test]
fn flattened_build_with_distinct_names_succeeds() {
    let bundler = release_bundler(
        &["assets/img/cat.jpeg", "assets/css/site.css"],
        ReleaseMode::Release { hashed: true, flatten: true },
    );
    let sheet = bundle_in_memory(
        &[("assets/css/site.css", ".c { background: url(../img/cat.jpeg); }")],
        "assets/css/site.css",
    );
    let out = bundler.bundle(&vec![b"abc".to_vec()], &vec![sheet]).unwrap();
    assert_eq!(out.manifest.lookup(&"img/cat.jpeg".to_string()).as_deref(), Some("cat-6437b3ac.jpeg"));
    let text = String::from_utf8(find(&out, "css/site.css").content.clone()).unwrap();
    assert!(text.contains("/cat-6437b3ac.jpeg"));
}
