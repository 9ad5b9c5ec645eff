//! Composer-compatible PHP package management: version and constraint
//! grammar, manifests, registry metadata, dependency resolution, archive
//! checks and autoloader generation.
use vstd::prelude::*;

pub mod text;
pub mod version;
pub mod constraint;
pub mod json;
pub mod require_map;
pub mod registry;
pub mod curl_metadata;
pub mod resolver;
pub mod guarantees;
pub mod decode;
pub mod manifest;
pub mod lock;
pub mod installer;
pub mod autoload;
pub mod relocation;
pub mod php_array;
pub mod cli;

verus! {
} // verus!
