//! Decoding of the SMBIOS firmware data area: the two entry-point layouts and
//! the structure table that they point to.

pub mod entry;
pub mod table;
pub mod info;
