//! Version-directory manager for a JSON-backed data editor.
//!
//! A *data directory* is a filesystem root holding zero or more *version
//! directories*, each a named snapshot with a fixed schema of JSON data
//! files.  This crate holds the verified core: textual path arithmetic
//! (joining, parents, the data-directory resolution rule), the placeholder
//! file schema, and the version lifecycle operations (create, clone,
//! delete, raw read/write), all specified and proved over an explicit model
//! of the disk (`disk::Disk`).  Real file I/O is performed by a thin host
//! layer that mirrors each verified operation on the actual filesystem.

pub mod disk;
pub mod errors;
pub mod laws;
pub mod paths;
pub mod schema;
pub mod versions;
