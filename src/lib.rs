//! Read and write access to a FAT32 disk image held in memory.
//!
//! The image is an owned byte buffer.  The boot sector gives the volume's
//! geometry, clusters map to byte offsets, directories are runs of 32-byte
//! records, and files are created one cluster at a time.
pub mod bytes;
pub mod boot;
pub mod error;
pub mod dirent;
pub mod name;
pub mod path;
pub mod text;
pub mod volume;
pub mod written;

pub use boot::{BiosParameterBlock, BootSector};
pub use dirent::DirectoryEntry;
pub use error::FsError;
pub use name::format_name;
pub use volume::{Fat32Image, Fat32Volume};
