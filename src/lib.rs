//! Reads the inline metadata in the comment header of a script: the Python
//! version it requires (`# X-Requires-Python: ...`) and the dependencies
//! listed in its `# Script Dependencies:` block.
pub mod text;
pub mod header;
pub mod scan;
pub mod laws;

pub use scan::{parse_pep722, HeaderScanner, MetadataError, ScanResult};
