use mrt::{
    Afi, Message, MrtHeader, MrtType, ParseError, Parser, PeerIndexTable, RibEntry, TableDump,
    TableDumpV2,
};

fn header_bytes(timestamp: u32, typ: u16, subtype: u16, length: u32) -> Vec<u8> {
    let mut out = Vec::new();
    out.extend_from_slice(&timestamp.to_be_bytes());
    out.extend_from_slice(&typ.to_be_bytes());
    out.extend_from_slice(&subtype.to_be_bytes());
    out.extend_from_slice(&length.to_be_bytes());
    out
}

#[test]
fn header_fields_are_big_endian() {
    let bytes = [
        0x5b, 0x9d, 0x2a, 0x00, 0x00, 0x0d, 0x00, 0x02, 0x00, 0x00, 0x01, 0x02,
    ];
    assert_eq!(
        MrtHeader::parse(&bytes, 0),
        Ok(MrtHeader {
            timestamp: 0x5b9d_2a00,
            typ: MrtType::TableDumpV2(TableDumpV2::RibIpv4Unicast),
            length: 258,
        })
    );
}

#[test]
fn header_at_an_offset() {
    let mut bytes = vec![0xee, 0xee, 0xee];
    bytes.extend(header_bytes(7, 12, 2, 99));
    assert_eq!(
        MrtHeader::parse(&bytes, 3),
        Ok(MrtHeader {
            timestamp: 7,
            typ: MrtType::TableDump(TableDump::AfiIpv6),
            length: 99,
        })
    );
}

#[test]
fn header_of_eleven_bytes_is_cut_short() {
    let bytes = header_bytes(7, 12, 2, 99);
    assert_eq!(
        MrtHeader::parse(&bytes[..11], 0),
        Err(ParseError::UnexpectedEof)
    );
    assert_eq!(MrtHeader::parse(&bytes, 1), Err(ParseError::UnexpectedEof));
    assert_eq!(MrtHeader::parse(&[], 0), Err(ParseError::UnexpectedEof));
}

#[test]
fn every_type_pair_is_classified() {
    assert_eq!(
        MrtType::classify(12, 1),
        MrtType::TableDump(TableDump::AfiIpv4)
    );
    assert_eq!(
        MrtType::classify(12, 2),
        MrtType::TableDump(TableDump::AfiIpv6)
    );
    assert_eq!(
        MrtType::classify(12, 3),
        MrtType::TableDump(TableDump::Unknown(3))
    );
    assert_eq!(
        MrtType::classify(12, 0),
        MrtType::TableDump(TableDump::Unknown(0))
    );
    assert_eq!(
        MrtType::classify(13, 1),
        MrtType::TableDumpV2(TableDumpV2::PeerIndex)
    );
    assert_eq!(
        MrtType::classify(13, 2),
        MrtType::TableDumpV2(TableDumpV2::RibIpv4Unicast)
    );
    assert_eq!(
        MrtType::classify(13, 4),
        MrtType::TableDumpV2(TableDumpV2::RibIpv6Unicast)
    );
    assert_eq!(
        MrtType::classify(13, 3),
        MrtType::TableDumpV2(TableDumpV2::Unknown(3))
    );
    assert_eq!(
        MrtType::classify(13, 65535),
        MrtType::TableDumpV2(TableDumpV2::Unknown(65535))
    );
    assert_eq!(MrtType::classify(16, 4), MrtType::Unknown(16));
    assert_eq!(MrtType::classify(0, 1), MrtType::Unknown(0));
}

#[test]
fn decoders_accept_their_own_kinds_only() {
    let afi4 = MrtType::TableDump(TableDump::AfiIpv4);
    let afi6 = MrtType::TableDump(TableDump::AfiIpv6);
    let peers = MrtType::TableDumpV2(TableDumpV2::PeerIndex);
    let rib4 = MrtType::TableDumpV2(TableDumpV2::RibIpv4Unicast);
    let rib6 = MrtType::TableDumpV2(TableDumpV2::RibIpv6Unicast);
    let other = MrtType::TableDumpV2(TableDumpV2::Unknown(6));
    assert!(Afi::can_parse(afi4) && Afi::can_parse(afi6));
    assert!(!Afi::can_parse(peers) && !Afi::can_parse(rib4) && !Afi::can_parse(other));
    assert!(!Afi::can_parse(MrtType::TableDump(TableDump::Unknown(1))));
    assert!(PeerIndexTable::can_parse(peers));
    assert!(!PeerIndexTable::can_parse(rib4) && !PeerIndexTable::can_parse(afi4));
    assert!(RibEntry::can_parse(rib4) && RibEntry::can_parse(rib6));
    assert!(!RibEntry::can_parse(peers) && !RibEntry::can_parse(other));
    assert!(!RibEntry::can_parse(MrtType::Unknown(13)));
}

#[test]
fn parser_walks_a_stream_of_records() {
    let mut stream = header_bytes(1, 99, 0, 3);
    stream.extend_from_slice(&[1, 2, 3]);
    // a RIB entry for 10.0.0.0/8 without sub-entries, and one byte that the
    // decoder leaves unread
    stream.extend(header_bytes(2, 13, 2, 9));
    stream.extend_from_slice(&[0, 0, 0, 5, 8, 10, 0, 0, 0xee]);
    stream.extend(header_bytes(3, 13, 1, 0));

    let mut parser = Parser::new(stream);
    assert_eq!(parser.position(), 0);

    let first = parser.read_header().unwrap();
    assert_eq!(first.typ, MrtType::Unknown(99));
    assert_eq!(parser.position(), 12);
    assert_eq!(parser.skip_message(&first), Ok(()));
    assert_eq!(parser.position(), 15);

    let second = parser.read_header().unwrap();
    assert_eq!(second.timestamp, 2);
    assert!(RibEntry::can_parse(second.typ));
    let entry: RibEntry = parser.read_message(&second).unwrap();
    assert_eq!(entry.sequence_number, 5);
    assert_eq!(entry.prefix.netmask(), 8);
    assert_eq!(entry.sub_entries.len(), 0);
    assert_eq!(parser.position(), 15 + 12 + 9);

    let third = parser.read_header().unwrap();
    assert_eq!(third.typ, MrtType::TableDumpV2(TableDumpV2::PeerIndex));
    assert_eq!(third.length, 0);
    assert_eq!(parser.read_header(), Err(ParseError::UnexpectedEof));
    assert_eq!(parser.position(), 15 + 12 + 9 + 12);
}

#[test]
fn parser_consumes_nothing_on_failure() {
    let mut stream = header_bytes(1, 13, 2, 10);
    stream.extend_from_slice(&[0, 0, 0, 5, 8, 10, 0, 0]);
    let mut parser = Parser::new(stream);
    let header = parser.read_header().unwrap();
    // the payload is two bytes shorter than declared
    assert_eq!(
        parser.skip_message(&header),
        Err(ParseError::UnexpectedEof)
    );
    assert_eq!(parser.position(), 12);
    let res: Result<RibEntry, ParseError> = parser.read_message(&header);
    assert_eq!(res.err(), Some(ParseError::UnexpectedEof));
    assert_eq!(parser.position(), 12);
}

#[test]
fn decoder_does_not_read_past_the_declared_payload() {
    // the header declares seven bytes, the entry would need eight
    let mut stream = header_bytes(1, 13, 2, 7);
    stream.extend_from_slice(&[0, 0, 0, 5, 8, 10, 0, 0]);
    let mut parser = Parser::new(stream);
    let header = parser.read_header().unwrap();
    let res: Result<RibEntry, ParseError> = parser.read_message(&header);
    assert_eq!(res.err(), Some(ParseError::UnexpectedEof));
    assert_eq!(parser.position(), 12);
    assert_eq!(parser.skip_message(&header), Ok(()));
    assert_eq!(parser.position(), 19);
}

#[test]
fn parser_keeps_its_place_when_the_decoder_refuses() {
    // 10.0.0.1/8 has host bits set
    let mut stream = header_bytes(1, 12, 1, 22);
    stream.extend_from_slice(&[0, 1, 0, 2, 10, 0, 0, 1, 8, 1]);
    stream.extend_from_slice(&[0, 0, 0, 9, 192, 0, 2, 1, 0, 7, 0, 0]);
    let mut parser = Parser::new(stream);
    let header = parser.read_header().unwrap();
    assert!(Afi::can_parse(header.typ));
    let res: Result<Afi, ParseError> = parser.read_message(&header);
    assert_eq!(res.err(), Some(ParseError::InvalidPrefix));
    assert_eq!(parser.position(), 12);
}

#[test]
fn parser_decodes_a_peer_index_table_and_a_legacy_entry() {
    let table = [0xc0, 0, 2, 9, 0, 2, b'v', b'1', 0, 1, 0, 1, 1, 1, 1, 192, 0, 2, 1, 2, 0xbd];
    let afi = [
        0, 1, 0, 2, 10, 0, 0, 0, 8, 1, 0, 0, 0, 9, 192, 0, 2, 1, 0x02, 0xbd, 0, 0,
    ];
    let mut stream = header_bytes(1, 13, 1, table.len() as u32);
    stream.extend_from_slice(&table);
    stream.extend(header_bytes(2, 12, 1, afi.len() as u32));
    stream.extend_from_slice(&afi);
    let mut parser = Parser::new(stream);

    let header = parser.read_header().unwrap();
    assert!(PeerIndexTable::can_parse(header.typ));
    let decoded: PeerIndexTable = parser.read_message(&header).unwrap();
    assert_eq!(decoded.view_name, "v1");
    assert_eq!(decoded.peer_entries.len(), 1);
    assert_eq!(decoded.peer_entries[0].asn, 701);
    assert_eq!(parser.position(), 12 + table.len());

    let header = parser.read_header().unwrap();
    assert!(Afi::can_parse(header.typ));
    let decoded: Afi = parser.read_message(&header).unwrap();
    assert_eq!(decoded.peer_as, 701);
    assert_eq!(parser.position(), 24 + table.len() + afi.len());
    assert_eq!(parser.read_header(), Err(ParseError::UnexpectedEof));
}
