//! The header of an MRT record and the kinds of record it announces.

use crate::wire::{
    has_bytes, lemma_len_fits, read_u16, read_u32, u16_at, u32_at, ParseError,
};
use vstd::prelude::*;

verus! {

/// Subtypes of the legacy TABLE_DUMP type.
#[derive(Debug, Copy, Clone, PartialEq, Eq, Structural)]
pub enum TableDump {
    AfiIpv4,
    AfiIpv6,
    Unknown(u16),
}

/// Subtypes of the TABLE_DUMP_V2 type.
#[derive(Debug, Copy, Clone, PartialEq, Eq, Structural)]
pub enum TableDumpV2 {
    PeerIndex,
    RibIpv4Unicast,
    RibIpv6Unicast,
    Unknown(u16),
}

/// The kind of an MRT record. A code that is not known is kept, never
/// refused.
#[derive(Debug, Copy, Clone, PartialEq, Eq, Structural)]
pub enum MrtType {
    TableDump(TableDump),
    TableDumpV2(TableDumpV2),
    Unknown(u16),
}

/// The twelve bytes in front of every MRT record.
#[derive(Debug, Copy, Clone, PartialEq, Eq, Structural)]
pub struct MrtHeader {
    pub timestamp: u32,
    pub typ: MrtType,
    /// The number of payload bytes that follow the header.
    pub length: u32,
}

/// The number of bytes of a header.
pub const HEADER_LEN: usize = 12;

/// The kind of record that the type and subtype fields announce.
pub open spec fn mrt_type_of(typ: u16, subtype: u16) -> MrtType {
    if typ == 12 {
        MrtType::TableDump(
            if subtype == 1 {
                TableDump::AfiIpv4
            } else if subtype == 2 {
                TableDump::AfiIpv6
            } else {
                TableDump::Unknown(subtype)
            },
        )
    } else if typ == 13 {
        MrtType::TableDumpV2(
            if subtype == 1 {
                TableDumpV2::PeerIndex
            } else if subtype == 2 {
                TableDumpV2::RibIpv4Unicast
            } else if subtype == 4 {
                TableDumpV2::RibIpv6Unicast
            } else {
                TableDumpV2::Unknown(subtype)
            },
        )
    } else {
        MrtType::Unknown(typ)
    }
}

/// The header whose twelve bytes start at `pos`: timestamp, type, subtype
/// and length, each big-endian.
pub open spec fn header_at(input: Seq<u8>, pos: int) -> Result<MrtHeader, ParseError> {
    if has_bytes(input, pos, 12) {
        Ok(
            MrtHeader {
                timestamp: u32_at(input, pos),
                typ: mrt_type_of(u16_at(input, pos + 4), u16_at(input, pos + 6)),
                length: u32_at(input, pos + 8),
            },
        )
    } else {
        Err(ParseError::UnexpectedEof)
    }
}

impl MrtType {
    /// Classifies the type and subtype fields of a header.
    pub fn classify(typ: u16, subtype: u16) -> (kind: MrtType)
        ensures
            kind == mrt_type_of(typ, subtype),
    {
        match typ {
            12 => MrtType::TableDump(
                match subtype {
                    1 => TableDump::AfiIpv4,
                    2 => TableDump::AfiIpv6,
                    _ => TableDump::Unknown(subtype),
                },
            ),
            13 => MrtType::TableDumpV2(
                match subtype {
                    1 => TableDumpV2::PeerIndex,
                    2 => TableDumpV2::RibIpv4Unicast,
                    4 => TableDumpV2::RibIpv6Unicast,
                    _ => TableDumpV2::Unknown(subtype),
                },
            ),
            _ => MrtType::Unknown(typ),
        }
    }
}

impl MrtHeader {
    /// Decodes the header that starts at `pos`.
    pub fn parse(input: &[u8], pos: usize) -> (res: Result<MrtHeader, ParseError>)
        ensures
            res == header_at(input@, pos as int),
    {
        proof {
            lemma_len_fits(input);
        }
        let timestamp = read_u32(input, pos)?;
        let typ = read_u16(input, pos + 4)?;
        let subtype = read_u16(input, pos + 6)?;
        let length = read_u32(input, pos + 8)?;
        Ok(MrtHeader { timestamp, typ: MrtType::classify(typ, subtype), length })
    }
}

} // verus!
