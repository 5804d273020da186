//! Archive helper library: entry-name decoding, file-manager integration
//! files, update checks, and the path planning behind compress/extract.

pub mod auto;
pub mod compress;
pub mod drop;
pub mod encoding;
pub mod extract;
pub mod integration;
pub mod paths;
pub mod text;
pub mod update;
