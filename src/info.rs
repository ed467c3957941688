//! Field layouts of two record types, read from a record's formatted area.
//! String fields hold 1-based indices for `Table::get_str`.
use vstd::prelude::*;
use crate::entry::{le16, le64, read_u16, read_u64};

verus! {

/// Size in bytes of the BIOS information fields.
pub const BIOS_INFO_SIZE: usize = 14;

/// Size in bytes of the system information fields.
pub const SYSTEM_INFO_SIZE: usize = 4;

/// The fields of a BIOS information record (type 0).
#[derive(Clone, Copy, Default, Debug)]
pub struct BiosInfo {
    pub vendor: u8,
    pub version: u8,
    pub address: u16,
    pub date: u8,
    pub size: u8,
    pub characteristics: u64,
}

/// `b` is what the first `BIOS_INFO_SIZE` bytes of `d` hold.
pub open spec fn bios_info_decodes(d: Seq<u8>, b: BiosInfo) -> bool {
    &&& d.len() >= BIOS_INFO_SIZE
    &&& b.vendor == d[0]
    &&& b.version == d[1]
    &&& b.address == le16(d, 2)
    &&& b.date == d[4]
    &&& b.size == d[5]
    &&& b.characteristics == le64(d, 6)
}

impl BiosInfo {
    /// Reads the fields from the start of a formatted area; `None` when it is
    /// shorter than `BIOS_INFO_SIZE`.
    pub fn from_data(data: &[u8]) -> (r: Option<BiosInfo>)
        ensures
            data@.len() < BIOS_INFO_SIZE <==> r is None,
            r matches Some(b) ==> bios_info_decodes(data@, b),
    {
        if data.len() < BIOS_INFO_SIZE {
            return None;
        }
        Some(
            BiosInfo {
                vendor: data[0],
                version: data[1],
                address: read_u16(data, 2),
                date: data[4],
                size: data[5],
                characteristics: read_u64(data, 6),
            },
        )
    }
}

/// The fields of a system information record (type 1).
#[derive(Clone, Copy, Default, Debug)]
pub struct SystemInfo {
    pub manufacturer: u8,
    pub name: u8,
    pub version: u8,
    pub serial: u8,
}

impl SystemInfo {
    /// Reads the fields from the start of a formatted area; `None` when it is
    /// shorter than `SYSTEM_INFO_SIZE`.
    pub fn from_data(data: &[u8]) -> (r: Option<SystemInfo>)
        ensures
            data@.len() < SYSTEM_INFO_SIZE <==> r is None,
            r matches Some(s) ==> s.manufacturer == data@[0] && s.name == data@[1]
                && s.version == data@[2] && s.serial == data@[3],
    {
        if data.len() < SYSTEM_INFO_SIZE {
            return None;
        }
        Some(SystemInfo { manufacturer: data[0], name: data[1], version: data[2], serial: data[3] })
    }
}

} // verus!
