//! Errors of the asset pipeline.
use vstd::prelude::*;

verus! {

/// A failure of the stylesheet processor.
#[derive(Debug)]
pub enum BundleError {
    /// The stylesheet or one of its imports could not be read or parsed.
    Bundler(String),
    /// The browser target query was rejected.
    Browsers(String),
    /// The bundled stylesheet could not be printed.
    Print(String),
}

/// A failure of a build.
#[derive(Debug)]
pub enum CremeError {
    AssetsDirDoesNotExist(String),
    PublicDirDoesNotExist(String),
    AssetsOutDirMustBeRelative(String),
    DistOutDirMustBeRelative(String),
    /// Reading or writing a file failed.
    Io(String),
    NotAFile(String),
    /// A path does not lie under the asset root, or names no file there.
    InvalidFileName(String),
    Env(String),
    Css(BundleError),
    Serde(serde_json::Error),
    /// A stylesheet refers to an asset that has no manifest entry.
    UnresolvedReference(String),
    /// Two assets have the same logical key.
    DuplicateKey(String),
    /// Two assets would be published at the same path.
    PathCollision(String),
}

pub type CremeResult<T> = Result<T, CremeError>;

} // verus!
