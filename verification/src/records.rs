//! The payloads of the MRT records that are decoded: the peer index table,
//! the legacy per-prefix entry, and the RIB entry with its sub-entries.

use crate::address::{is_network, IpAddress, IpPrefix, IpPrefixView};
use crate::bgp::{asn_at, asn_width, attributes_of, Attribute};
use crate::header::{MrtHeader, MrtType, TableDump, TableDumpV2};
use crate::wire::{
    be_value, decoded, decoded_all, decoded_plain, decoded_whole, has_bytes, lemma_be_value_bound,
    lemma_be_value_concat, lemma_be_value_zeros, lemma_len_fits, lemma_views_push, radix_pow,
    read_exact, read_u128, read_u16, read_u32, read_u8, u128_at, u16_at, u32_at, views, wire_u16,
    wire_u8, ParseError,
};
use vstd::prelude::*;
use vstd::string::StringSliceAdditionalSpecFns;
use vstd::utf8::{decode_utf8, valid_utf8};

verus! {

/// A decoder of one kind of payload. Ask `can_parse` before `parse`: a
/// decoder takes only the records whose kind it accepts.
pub trait Message<M> {
    /// The kinds of record that this decoder takes.
    spec fn accepts(typ: MrtType) -> bool;

    /// `res` is what the payload `input` of a record with `header` decodes
    /// to.
    spec fn decodes(input: Seq<u8>, header: MrtHeader, res: Result<M, ParseError>) -> bool;

    /// Decodes the payload `input` of the record that `header` announces.
    fn parse(input: &[u8], header: &MrtHeader) -> (res: Result<M, ParseError>)
        requires
            Self::accepts(header.typ),
        ensures
            Self::decodes(input@, *header, res),
    ;

    /// Whether this decoder takes records of kind `typ`.
    fn can_parse(typ: MrtType) -> (yes: bool)
        ensures
            yes == Self::accepts(typ),
    ;
}

/// The number of bytes of an address on the wire.
pub open spec fn ip_width(is_ipv6: bool) -> int {
    if is_ipv6 {
        16
    } else {
        4
    }
}

/// The address whose bytes start at `pos`.
pub open spec fn address_at(input: Seq<u8>, pos: int, is_ipv6: bool) -> IpAddress {
    if is_ipv6 {
        IpAddress::V6(u128_at(input, pos))
    } else {
        IpAddress::V4(u32_at(input, pos))
    }
}

/// The address field at `pos`.
pub open spec fn wire_address(input: Seq<u8>, pos: int, is_ipv6: bool) -> Result<
    IpAddress,
    ParseError,
> {
    if has_bytes(input, pos, ip_width(is_ipv6)) {
        Ok(address_at(input, pos, is_ipv6))
    } else {
        Err(ParseError::UnexpectedEof)
    }
}

/// Reads the address that starts at `pos`: sixteen bytes, or four.
pub fn read_ip_addr(input: &[u8], pos: usize, is_ipv6: bool) -> (res: Result<IpAddress, ParseError>)
    ensures
        res == wire_address(input@, pos as int, is_ipv6),
{
    if is_ipv6 {
        match read_u128(input, pos) {
            Ok(value) => Ok(IpAddress::V6(value)),
            Err(e) => Err(e),
        }
    } else {
        match read_u32(input, pos) {
            Ok(value) => Ok(IpAddress::V4(value)),
            Err(e) => Err(e),
        }
    }
}

/// `core::str::from_utf8`, which returns the bytes as a string slice when
/// they are valid UTF-8 and an error when they are not. Trusted: it accepts
/// exactly the valid encodings, and the text that it returns is made of the
/// bytes given.
#[verifier::external_body]
fn str_from_utf8(bytes: &[u8]) -> (text: Option<&str>)
    ensures
        text is Some <==> valid_utf8(bytes@),
        text is Some ==> text.unwrap().spec_bytes() == bytes@,
{
    core::str::from_utf8(bytes).ok()
}

/// One peer of the collector.
#[derive(Debug, Clone, Copy, PartialEq, Eq, Structural)]
pub struct PeerEntry {
    pub peer_bgp_id: u32,
    pub ip_addr: IpAddress,
    pub asn: u32,
}

/// Bit 0 of a peer's flags byte: its address is IPv6.
pub open spec fn peer_is_ipv6(flags: u8) -> bool {
    flags & 0x1 == 0x1
}

/// Bit 1 of a peer's flags byte: its AS number takes four bytes.
pub open spec fn peer_is_asn_32bit(flags: u8) -> bool {
    flags & 0x2 == 0x2
}

/// The number of bytes of a peer entry with the given flags byte.
pub open spec fn peer_entry_len(flags: u8) -> int {
    5 + ip_width(peer_is_ipv6(flags)) + asn_width(peer_is_asn_32bit(flags))
}

/// The peer entry that starts at `pos`, and the position behind it: a flags
/// byte, the peer's id, its address and its AS number.
pub open spec fn peer_entry_at(input: Seq<u8>, pos: int) -> Result<(PeerEntry, int), ParseError> {
    match wire_u8(input, pos) {
        Err(e) => Err(e),
        Ok(flags) => if has_bytes(input, pos, peer_entry_len(flags)) {
            Ok(
                (
                    PeerEntry {
                        peer_bgp_id: u32_at(input, pos + 1),
                        ip_addr: address_at(input, pos + 5, peer_is_ipv6(flags)),
                        asn: asn_at(
                            input,
                            pos + 5 + ip_width(peer_is_ipv6(flags)),
                            peer_is_asn_32bit(flags),
                        ),
                    },
                    pos + peer_entry_len(flags),
                ),
            )
        } else {
            Err(ParseError::UnexpectedEof)
        },
    }
}

/// The next `remaining` peer entries from `pos` on, behind those in `done`.
pub open spec fn peer_entries_from(
    input: Seq<u8>,
    pos: int,
    remaining: nat,
    done: Seq<PeerEntry>,
) -> Result<Seq<PeerEntry>, ParseError>
    decreases remaining,
{
    if remaining == 0 {
        Ok(done)
    } else {
        match peer_entry_at(input, pos) {
            Err(e) => Err(e),
            Ok((entry, next)) => peer_entries_from(
                input,
                next,
                (remaining - 1) as nat,
                done.push(entry),
            ),
        }
    }
}

impl PeerEntry {
    /// Decodes the peer entry that starts at `pos` and returns it with the
    /// position behind it.
    pub fn parse(input: &[u8], pos: usize) -> (res: Result<(PeerEntry, usize), ParseError>)
        ensures
            decoded_plain(res, peer_entry_at(input@, pos as int)),
    {
        proof {
            lemma_len_fits(input);
        }
        let flags = read_u8(input, pos)?;
        let is_ipv6 = flags & 0x1 == 0x1;
        let is_asn_32bit = flags & 0x2 == 0x2;
        let peer_bgp_id = read_u32(input, pos + 1)?;
        let ip_addr = read_ip_addr(input, pos + 5, is_ipv6)?;
        let after_addr: usize = if is_ipv6 {
            pos + 21
        } else {
            pos + 9
        };
        if is_asn_32bit {
            let asn = read_u32(input, after_addr)?;
            Ok((PeerEntry { peer_bgp_id, ip_addr, asn }, after_addr + 4))
        } else {
            let asn = read_u16(input, after_addr)? as u32;
            Ok((PeerEntry { peer_bgp_id, ip_addr, asn }, after_addr + 2))
        }
    }
}

/// The table that names the collector and lists its peers.
#[derive(Debug)]
pub struct PeerIndexTable {
    pub collector_bgp_id: u32,
    pub view_name: String,
    pub peer_entries: Vec<PeerEntry>,
}

/// What a [`PeerIndexTable`] holds.
pub ghost struct PeerIndexTableView {
    pub collector_bgp_id: u32,
    pub view_name: Seq<char>,
    pub peer_entries: Seq<PeerEntry>,
}

impl View for PeerIndexTable {
    type V = PeerIndexTableView;

    open spec fn view(&self) -> PeerIndexTableView {
        PeerIndexTableView {
            collector_bgp_id: self.collector_bgp_id,
            view_name: self.view_name@,
            peer_entries: self.peer_entries@,
        }
    }
}

/// The peer index table that the payload `input` holds: the collector's id,
/// the length of the view name and the name, the number of peers and the
/// peers. A name that is not UTF-8 is refused before any peer is looked at.
pub open spec fn peer_index_table_of(input: Seq<u8>) -> Result<PeerIndexTableView, ParseError> {
    if !has_bytes(input, 0, 6) {
        Err(ParseError::UnexpectedEof)
    } else {
        let name_len = u16_at(input, 4) as int;
        if !has_bytes(input, 6, name_len) {
            Err(ParseError::UnexpectedEof)
        } else if !valid_utf8(input.subrange(6, 6 + name_len)) {
            Err(ParseError::InvalidData)
        } else {
            match wire_u16(input, 6 + name_len) {
                Err(e) => Err(e),
                Ok(count) => match peer_entries_from(
                    input,
                    8 + name_len,
                    count as nat,
                    Seq::empty(),
                ) {
                    Err(e) => Err(e),
                    Ok(peers) => Ok(
                        PeerIndexTableView {
                            collector_bgp_id: u32_at(input, 0),
                            view_name: decode_utf8(input.subrange(6, 6 + name_len)),
                            peer_entries: peers,
                        },
                    ),
                },
            }
        }
    }
}

impl Message<PeerIndexTable> for PeerIndexTable {
    open spec fn accepts(typ: MrtType) -> bool {
        typ == MrtType::TableDumpV2(TableDumpV2::PeerIndex)
    }

    open spec fn decodes(
        input: Seq<u8>,
        header: MrtHeader,
        res: Result<PeerIndexTable, ParseError>,
    ) -> bool {
        decoded_whole(res, peer_index_table_of(input))
    }

    fn parse(input: &[u8], header: &MrtHeader) -> (res: Result<PeerIndexTable, ParseError>) {
        proof {
            lemma_len_fits(input);
        }
        let collector_bgp_id = read_u32(input, 0)?;
        let view_name_length = read_u16(input, 4)?;
        let view_name_buffer = read_exact(input, 6, view_name_length as usize)?;
        let view_name = match str_from_utf8(view_name_buffer.as_slice()) {
            Some(text) => text.to_owned(),
            None => {
                return Err(ParseError::InvalidData);
            },
        };
        proof {
            vstd::utf8::encode_utf8_decode_utf8(view_name@);
        }
        let mut pos: usize = 6 + view_name_length as usize;
        let peer_count = read_u16(input, pos)?;
        pos = pos + 2;
        let mut peer_entries: Vec<PeerEntry> = Vec::with_capacity(peer_count as usize);
        let mut i: u16 = 0;
        while i < peer_count
            invariant
                i <= peer_count,
                peer_index_table_of(input@) == match peer_entries_from(
                    input@,
                    8 + view_name_length,
                    peer_count as nat,
                    Seq::empty(),
                ) {
                    Err(e) => Err::<PeerIndexTableView, ParseError>(e),
                    Ok(peers) => Ok(
                        PeerIndexTableView {
                            collector_bgp_id,
                            view_name: view_name@,
                            peer_entries: peers,
                        },
                    ),
                },
                peer_entries_from(
                    input@,
                    8 + view_name_length,
                    peer_count as nat,
                    Seq::empty(),
                ) == peer_entries_from(
                    input@,
                    pos as int,
                    (peer_count - i) as nat,
                    peer_entries@,
                ),
            decreases peer_count - i,
        {
            match PeerEntry::parse(input, pos) {
                Err(e) => {
                    return Err(e);
                },
                Ok((entry, next)) => {
                    peer_entries.push(entry);
                    pos = next;
                },
            }
            i = i + 1;
        }
        Ok(PeerIndexTable { collector_bgp_id, view_name, peer_entries })
    }

    fn can_parse(typ: MrtType) -> (yes: bool) {
        typ == MrtType::TableDumpV2(TableDumpV2::PeerIndex)
    }
}

/// One route to a prefix, as one peer announced it.
#[derive(Debug)]
pub struct RibSubEntry {
    /// An index into the peers of the peer index table. It is not held
    /// against the table here.
    pub peer_index: u16,
    pub originated_time: u32,
    /// The attribute bytes, as they stood on the wire.
    pub data: Vec<u8>,
}

/// What a [`RibSubEntry`] holds.
pub ghost struct RibSubEntryView {
    pub peer_index: u16,
    pub originated_time: u32,
    pub data: Seq<u8>,
}

impl View for RibSubEntry {
    type V = RibSubEntryView;

    open spec fn view(&self) -> RibSubEntryView {
        RibSubEntryView {
            peer_index: self.peer_index,
            originated_time: self.originated_time,
            data: self.data@,
        }
    }
}

/// The sub-entry that starts at `pos`, and the position behind it: a peer
/// index, a time, the length of the attributes and the attributes.
pub open spec fn sub_entry_at(input: Seq<u8>, pos: int) -> Result<
    (RibSubEntryView, int),
    ParseError,
> {
    if !has_bytes(input, pos, 8) {
        Err(ParseError::UnexpectedEof)
    } else {
        let length = u16_at(input, pos + 6) as int;
        if !has_bytes(input, pos + 8, length) {
            Err(ParseError::UnexpectedEof)
        } else {
            Ok(
                (
                    RibSubEntryView {
                        peer_index: u16_at(input, pos),
                        originated_time: u32_at(input, pos + 2),
                        data: input.subrange(pos + 8, pos + 8 + length),
                    },
                    pos + 8 + length,
                ),
            )
        }
    }
}

/// The next `remaining` sub-entries from `pos` on, behind those in `done`.
pub open spec fn sub_entries_from(
    input: Seq<u8>,
    pos: int,
    remaining: nat,
    done: Seq<RibSubEntryView>,
) -> Result<Seq<RibSubEntryView>, ParseError>
    decreases remaining,
{
    if remaining == 0 {
        Ok(done)
    } else {
        match sub_entry_at(input, pos) {
            Err(e) => Err(e),
            Ok((entry, next)) => sub_entries_from(
                input,
                next,
                (remaining - 1) as nat,
                done.push(entry),
            ),
        }
    }
}

impl RibSubEntry {
    /// Decodes the sub-entry that starts at `pos` and returns it with the
    /// position behind it.
    pub fn parse(input: &[u8], pos: usize) -> (res: Result<(RibSubEntry, usize), ParseError>)
        ensures
            decoded(res, sub_entry_at(input@, pos as int)),
    {
        proof {
            lemma_len_fits(input);
        }
        let peer_index = read_u16(input, pos)?;
        let originated_time = read_u32(input, pos + 2)?;
        let attribute_length = read_u16(input, pos + 6)?;
        let data = read_exact(input, pos + 8, attribute_length as usize)?;
        Ok((RibSubEntry { peer_index, originated_time, data }, pos + 8 + attribute_length as usize))
    }

    /// Decodes the attributes of the route, in wire order.
    pub fn get_bgp_attributes(&self) -> (res: Result<Vec<Attribute>, ParseError>)
        ensures
            decoded_all(res, attributes_of(self@.data)),
    {
        Attribute::parse_all(self.data.as_slice())
    }
}

/// The number of bytes that a prefix of `netmask` bits takes in a RIB entry.
pub open spec fn prefix_len_bytes(netmask: u8) -> int {
    (netmask + 7) / 8
}

/// `bytes` with zero bytes behind them, `width` bytes in all.
pub open spec fn padded(bytes: Seq<u8>, width: int) -> Seq<u8> {
    bytes + Seq::new((width - bytes.len()) as nat, |i: int| 0u8)
}

/// The routes to one prefix.
#[derive(Debug)]
pub struct RibEntry {
    pub sequence_number: u32,
    pub prefix: IpPrefix,
    pub sub_entries: Vec<RibSubEntry>,
}

/// What a [`RibEntry`] holds.
pub ghost struct RibEntryView {
    pub sequence_number: u32,
    pub prefix: IpPrefixView,
    pub sub_entries: Seq<RibSubEntryView>,
}

impl View for RibEntry {
    type V = RibEntryView;

    open spec fn view(&self) -> RibEntryView {
        RibEntryView {
            sequence_number: self.sequence_number,
            prefix: self.prefix@,
            sub_entries: views(self.sub_entries@),
        }
    }
}

/// The address of a RIB prefix of `netmask` bits whose bytes start at
/// `pos`: only the bytes that the mask reaches into are on the wire, and
/// the rest of the address is zero.
pub open spec fn rib_address_at(input: Seq<u8>, pos: int, netmask: u8, is_ipv6: bool) -> IpAddress {
    address_at(
        padded(input.subrange(pos, pos + prefix_len_bytes(netmask)), ip_width(is_ipv6)),
        0,
        is_ipv6,
    )
}

/// The RIB entry that the payload `input` holds: a sequence number, the
/// length of the prefix in bits, the prefix, the number of sub-entries and
/// the sub-entries. The family of the prefix is that of the record.
pub open spec fn rib_entry_of(input: Seq<u8>, is_ipv6: bool) -> Result<RibEntryView, ParseError> {
    if !has_bytes(input, 0, 5) {
        Err(ParseError::UnexpectedEof)
    } else {
        let netmask = input[4];
        let after_prefix = 5 + prefix_len_bytes(netmask);
        if !has_bytes(input, 5, prefix_len_bytes(netmask)) {
            Err(ParseError::UnexpectedEof)
        } else if netmask > 8 * ip_width(is_ipv6) {
            Err(ParseError::InvalidPrefix)
        } else if !is_network(rib_address_at(input, 5, netmask, is_ipv6), netmask) {
            Err(ParseError::InvalidPrefix)
        } else {
            match wire_u16(input, after_prefix) {
                Err(e) => Err(e),
                Ok(count) => match sub_entries_from(
                    input,
                    after_prefix + 2,
                    count as nat,
                    Seq::empty(),
                ) {
                    Err(e) => Err(e),
                    Ok(sub_entries) => Ok(
                        RibEntryView {
                            sequence_number: u32_at(input, 0),
                            prefix: IpPrefixView {
                                address: rib_address_at(input, 5, netmask, is_ipv6),
                                netmask,
                            },
                            sub_entries,
                        },
                    ),
                },
            }
        }
    }
}

/// A RIB prefix of L bits takes the least number of bytes that hold L bits,
/// and the address is those bytes with zero bytes behind them: the number
/// that they spell, shifted up by the bytes that are not on the wire. The
/// count of sub-entries follows the prefix at once.
pub proof fn lemma_rib_prefix_padding(input: Seq<u8>, is_ipv6: bool)
    requires
        rib_entry_of(input, is_ipv6) is Ok,
    ensures
        ({
            let entry = rib_entry_of(input, is_ipv6).unwrap();
            let netmask = input[4];
            let count = prefix_len_bytes(netmask);
            let width = ip_width(is_ipv6);
            &&& entry.prefix.netmask == netmask
            &&& 8 * count - 8 < netmask <= 8 * count
            &&& count <= width
            &&& entry.prefix.address.value() == be_value(input.subrange(5, 5 + count)) * radix_pow(
                (width - count) as nat,
            )
            &&& has_bytes(input, 5 + count, 2)
            &&& sub_entries_from(
                input,
                7 + count,
                u16_at(input, 5 + count) as nat,
                Seq::empty(),
            ) == Ok::<Seq<RibSubEntryView>, ParseError>(entry.sub_entries)
        }),
{
    let netmask = input[4];
    let count = prefix_len_bytes(netmask);
    let width = ip_width(is_ipv6);
    let wire = input.subrange(5, 5 + count);
    let zeros = Seq::new((width - count) as nat, |i: int| 0u8);
    let whole = padded(wire, width);
    assert(whole.subrange(0, width) =~= whole);
    lemma_be_value_concat(wire, zeros);
    lemma_be_value_zeros((width - count) as nat);
    lemma_be_value_bound(whole);
    reveal_with_fuel(radix_pow, 17);
}

impl Message<RibEntry> for RibEntry {
    open spec fn accepts(typ: MrtType) -> bool {
        typ == MrtType::TableDumpV2(TableDumpV2::RibIpv4Unicast) || typ == MrtType::TableDumpV2(
            TableDumpV2::RibIpv6Unicast,
        )
    }

    open spec fn decodes(input: Seq<u8>, header: MrtHeader, res: Result<RibEntry, ParseError>) -> bool {
        decoded_whole(
            res,
            rib_entry_of(input, header.typ == MrtType::TableDumpV2(TableDumpV2::RibIpv6Unicast)),
        )
    }

    fn parse(input: &[u8], header: &MrtHeader) -> (res: Result<RibEntry, ParseError>) {
        proof {
            lemma_len_fits(input);
        }
        let is_ipv6 = header.typ == MrtType::TableDumpV2(TableDumpV2::RibIpv6Unicast);
        let width: usize = if is_ipv6 {
            16
        } else {
            4
        };
        let sequence_number = read_u32(input, 0)?;
        let prefix_length = read_u8(input, 4)?;
        let prefix_bytes: usize = (prefix_length as usize + 7) / 8;
        let mut parts = read_exact(input, 5, prefix_bytes)?;
        if prefix_bytes > width {
            return Err(ParseError::InvalidPrefix);
        }
        let ghost wire = parts@;
        while parts.len() < width
            invariant
                wire.len() <= parts@.len() <= width,
                parts@ =~= wire + Seq::new((parts@.len() - wire.len()) as nat, |i: int| 0u8),
            decreases width - parts.len(),
        {
            parts.push(0);
        }
        let address = match read_ip_addr(parts.as_slice(), 0, is_ipv6) {
            Ok(address) => address,
            Err(e) => {
                return Err(e);
            },
        };
        let prefix = match IpPrefix::new(address, prefix_length) {
            Some(prefix) => prefix,
            None => {
                return Err(ParseError::InvalidPrefix);
            },
        };
        let mut pos: usize = 5 + prefix_bytes;
        let entry_count = read_u16(input, pos)?;
        pos = pos + 2;
        let mut sub_entries: Vec<RibSubEntry> = Vec::with_capacity(entry_count as usize);
        let mut i: u16 = 0;
        proof {
            assert(views(sub_entries@) =~= Seq::<RibSubEntryView>::empty());
        }
        while i < entry_count
            invariant
                i <= entry_count,
                is_ipv6 == (header.typ == MrtType::TableDumpV2(TableDumpV2::RibIpv6Unicast)),
                rib_entry_of(input@, is_ipv6) == match sub_entries_from(
                    input@,
                    7 + prefix_bytes,
                    entry_count as nat,
                    Seq::empty(),
                ) {
                    Err(e) => Err::<RibEntryView, ParseError>(e),
                    Ok(entries) => Ok(
                        RibEntryView { sequence_number, prefix: prefix@, sub_entries: entries },
                    ),
                },
                sub_entries_from(
                    input@,
                    7 + prefix_bytes,
                    entry_count as nat,
                    Seq::empty(),
                ) == sub_entries_from(
                    input@,
                    pos as int,
                    (entry_count - i) as nat,
                    views(sub_entries@),
                ),
            decreases entry_count - i,
        {
            match RibSubEntry::parse(input, pos) {
                Err(e) => {
                    return Err(e);
                },
                Ok((entry, next)) => {
                    proof {
                        lemma_views_push(sub_entries@, entry);
                    }
                    sub_entries.push(entry);
                    pos = next;
                },
            }
            i = i + 1;
        }
        Ok(RibEntry { sequence_number, prefix, sub_entries })
    }

    fn can_parse(typ: MrtType) -> (yes: bool) {
        typ == MrtType::TableDumpV2(TableDumpV2::RibIpv4Unicast) || typ == MrtType::TableDumpV2(
            TableDumpV2::RibIpv6Unicast,
        )
    }
}

/// One route of a legacy table dump.
#[derive(Debug)]
pub struct Afi {
    pub view_number: u16,
    pub sequence_number: u16,
    pub prefix: IpPrefix,
    pub status: u8,
    pub originated_time: u32,
    pub peer_ip: IpAddress,
    pub peer_as: u16,
    /// The attribute bytes, as they stood on the wire.
    pub data: Vec<u8>,
}

/// What an [`Afi`] holds.
pub ghost struct AfiView {
    pub view_number: u16,
    pub sequence_number: u16,
    pub prefix: IpPrefixView,
    pub status: u8,
    pub originated_time: u32,
    pub peer_ip: IpAddress,
    pub peer_as: u16,
    pub data: Seq<u8>,
}

impl View for Afi {
    type V = AfiView;

    open spec fn view(&self) -> AfiView {
        AfiView {
            view_number: self.view_number,
            sequence_number: self.sequence_number,
            prefix: self.prefix@,
            status: self.status,
            originated_time: self.originated_time,
            peer_ip: self.peer_ip,
            peer_as: self.peer_as,
            data: self.data@,
        }
    }
}

/// The legacy entry that the payload `input` holds: view and sequence
/// number, the prefix's address and length, a status, a time, the peer's
/// address and 16-bit AS number, the length of the attributes and the
/// attributes. A prefix that is no network is refused as soon as it is read.
pub open spec fn afi_of(input: Seq<u8>, is_ipv6: bool) -> Result<AfiView, ParseError> {
    let w = ip_width(is_ipv6);
    if !has_bytes(input, 0, 5 + w) {
        Err(ParseError::UnexpectedEof)
    } else if !is_network(address_at(input, 4, is_ipv6), input[4 + w]) {
        Err(ParseError::InvalidPrefix)
    } else if !has_bytes(input, 0, 14 + 2 * w) {
        Err(ParseError::UnexpectedEof)
    } else if !has_bytes(input, 14 + 2 * w, u16_at(input, 12 + 2 * w) as int) {
        Err(ParseError::UnexpectedEof)
    } else {
        Ok(
            AfiView {
                view_number: u16_at(input, 0),
                sequence_number: u16_at(input, 2),
                prefix: IpPrefixView {
                    address: address_at(input, 4, is_ipv6),
                    netmask: input[4 + w],
                },
                status: input[5 + w],
                originated_time: u32_at(input, 6 + w),
                peer_ip: address_at(input, 10 + w, is_ipv6),
                peer_as: u16_at(input, 10 + 2 * w),
                data: input.subrange(14 + 2 * w, 14 + 2 * w + u16_at(input, 12 + 2 * w)),
            },
        )
    }
}

impl Message<Afi> for Afi {
    open spec fn accepts(typ: MrtType) -> bool {
        typ == MrtType::TableDump(TableDump::AfiIpv4) || typ == MrtType::TableDump(
            TableDump::AfiIpv6,
        )
    }

    open spec fn decodes(input: Seq<u8>, header: MrtHeader, res: Result<Afi, ParseError>) -> bool {
        decoded_whole(res, afi_of(input, header.typ == MrtType::TableDump(TableDump::AfiIpv6)))
    }

    fn parse(input: &[u8], header: &MrtHeader) -> (res: Result<Afi, ParseError>) {
        proof {
            lemma_len_fits(input);
        }
        let is_ipv6 = header.typ == MrtType::TableDump(TableDump::AfiIpv6);
        let width: usize = if is_ipv6 {
            16
        } else {
            4
        };
        let view_number = read_u16(input, 0)?;
        let sequence_number = read_u16(input, 2)?;
        let prefix_ip = read_ip_addr(input, 4, is_ipv6)?;
        let prefix_length = read_u8(input, 4 + width)?;
        let prefix = match IpPrefix::new(prefix_ip, prefix_length) {
            Some(prefix) => prefix,
            None => {
                return Err(ParseError::InvalidPrefix);
            },
        };
        let status = read_u8(input, 5 + width)?;
        let originated_time = read_u32(input, 6 + width)?;
        let peer_ip = read_ip_addr(input, 10 + width, is_ipv6)?;
        let peer_as = read_u16(input, 10 + 2 * width)?;
        let attribute_length = read_u16(input, 12 + 2 * width)?;
        let data = read_exact(input, 14 + 2 * width, attribute_length as usize)?;
        Ok(
            Afi {
                view_number,
                sequence_number,
                prefix,
                status,
                originated_time,
                peer_ip,
                peer_as,
                data,
            },
        )
    }

    fn can_parse(typ: MrtType) -> (yes: bool) {
        typ == MrtType::TableDump(TableDump::AfiIpv4) || typ == MrtType::TableDump(
            TableDump::AfiIpv6,
        )
    }
}

impl Afi {
    /// Decodes the attributes of the route, in wire order.
    pub fn get_bgp_attributes(&self) -> (res: Result<Vec<Attribute>, ParseError>)
        ensures
            decoded_all(res, attributes_of(self@.data)),
    {
        Attribute::parse_all(self.data.as_slice())
    }
}

} // verus!
