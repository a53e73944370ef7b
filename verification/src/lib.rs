//! Read access to, and hash-indexed re-creation of, the FARC packed archive format.
//!
//! A FARC archive bundles many sub-files in one file, without subdirectories or
//! compression. Sub-files are addressed either by their name or by the CRC-32 of
//! their name encoded as UTF-16LE. [`Farc`] parses an archive held in memory,
//! [`FileNameIndex`] is the dual-keyed index behind it, and [`FarcWriter`]
//! serialises a hash-indexed archive.

pub mod bytes;
pub mod dehasher;
pub mod farc;
pub mod farc_file;
pub mod farc_header;
pub mod farc_writer;
pub mod file_name_index;
pub mod file_table;
pub mod layout;
pub mod message_dehash;
pub mod pgdb;
pub mod round_trip;
pub mod sir0;
pub mod utf16;

pub use dehasher::FileHashType;
pub use farc::{Farc, FarcError};
pub use farc_file::FarcFile;
pub use farc_header::{FarcHeader, ReadHeaderError};
pub use farc_writer::{FarcLayout, FarcWriter, FarcWriterError};
pub use file_name_index::{hash_name, FileNameError, FileNameIndex};
pub use pgdb::{PGDBEntrie, Pgdb, PgdbError};
