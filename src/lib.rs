//! Building blocks of a resource-pack optimiser: path filters, relative-path
//! mapping, shader comment stripping, structured-data minification, image
//! recompression, archiving, digests and the staged pipeline controller.

pub mod text;
pub mod shader;
pub mod filters;
pub mod paths;
pub mod codecs;
pub mod archive;
pub mod stages;
pub mod pipeline;
