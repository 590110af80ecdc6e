//! Build-time static-asset pipeline: discovery and classification of assets,
//! content-addressed file names, stylesheet reference rewriting and the
//! manifest that maps logical asset names to published paths.

mod text;
pub mod digest;
pub mod key;
pub mod error;
pub mod manifest;
pub mod source;
pub mod css;
pub mod publish;
pub mod bundler;
pub mod serve;

pub use bundler::{BuildOutput, Creme, CremeBundler, ReleaseMode};
pub use error::{BundleError, CremeError, CremeResult};
pub use manifest::Manifest;
pub use source::AssetSource;
