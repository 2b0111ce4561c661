//! Inspects a byte stream, peels every compression layer it finds and walks
//! the entries of nested tar and zip archives.
pub mod container;
pub mod error;
pub mod peekable;
pub mod source;
pub mod stream;
pub mod tar_container;
pub mod walk;
pub mod zip_container;

pub use crate::container::{ArchiveKind, Container, ContainerKind, FileItem, FileKind, SizeHint};
pub use crate::error::ReadError;
pub use crate::source::ByteSource;
pub use crate::stream::{CompressionKind, StreamKind};
pub use crate::walk::{iterate_archive, recursive_read};
