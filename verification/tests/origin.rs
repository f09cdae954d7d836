use mrt::bgp::{AttributeAsPath, PathSegment, PathSegmentType};
use mrt::processor::{
    genuine_asns, get_origin_as_from_afi, get_origin_as_from_bgp_attribute_as_path,
    get_origin_as_from_path_segments, get_origin_as_from_rib_entry, is_asn_bogus,
    last_genuine_asn, sorted_set, OriginError, ALLOCATED_LAST, RESERVED_FIRST, RESERVED_LAST,
};
use mrt::{
    Afi, Message, MrtHeader, MrtType, ParseError, RibEntry, RibSubEntry, TableDump, TableDumpV2,
};

fn segment_bytes(kind: u8, asns: &[u32], wide: bool) -> Vec<u8> {
    let mut out = vec![kind, asns.len() as u8];
    for asn in asns {
        if wide {
            out.extend_from_slice(&asn.to_be_bytes());
        } else {
            out.extend_from_slice(&(*asn as u16).to_be_bytes());
        }
    }
    out
}

fn as_path_attribute(path: &[u8]) -> Vec<u8> {
    let mut out = vec![0x40, 2, path.len() as u8];
    out.extend_from_slice(path);
    out
}

fn sub_entry_bytes(peer_index: u16, attributes: &[u8]) -> Vec<u8> {
    let mut out = Vec::new();
    out.extend_from_slice(&peer_index.to_be_bytes());
    out.extend_from_slice(&[0, 0, 0, 9]);
    out.extend_from_slice(&(attributes.len() as u16).to_be_bytes());
    out.extend_from_slice(attributes);
    out
}

fn rib_entry(sub_entries: &[Vec<u8>]) -> RibEntry {
    let mut payload = vec![0, 0, 0, 1, 8, 10];
    payload.extend_from_slice(&(sub_entries.len() as u16).to_be_bytes());
    for sub_entry in sub_entries {
        payload.extend_from_slice(sub_entry);
    }
    let header = MrtHeader {
        timestamp: 0,
        typ: MrtType::TableDumpV2(TableDumpV2::RibIpv4Unicast),
        length: payload.len() as u32,
    };
    RibEntry::parse(&payload, &header).unwrap()
}

fn afi(attributes: &[u8]) -> Afi {
    let mut payload = vec![0, 1, 0, 2, 10, 0, 0, 0, 8, 1, 0, 0, 0, 9, 192, 0, 2, 1, 0, 7];
    payload.extend_from_slice(&(attributes.len() as u16).to_be_bytes());
    payload.extend_from_slice(attributes);
    let header = MrtHeader {
        timestamp: 0,
        typ: MrtType::TableDump(TableDump::AfiIpv4),
        length: payload.len() as u32,
    };
    Afi::parse(&payload, &header).unwrap()
}

#[test]
fn bogus_asn_classification() {
    assert!(is_asn_bogus(0));
    assert!(is_asn_bogus(64496));
    assert!(is_asn_bogus(131070));
    assert!(is_asn_bogus(1_000_001));
    // 65000 lies inside the reserved block
    assert!(is_asn_bogus(65000));
    assert!(!is_asn_bogus(701));
}

#[test]
fn bogus_asn_boundaries() {
    assert!(!is_asn_bogus(1));
    assert!(!is_asn_bogus(64495));
    assert!(is_asn_bogus(64496));
    assert!(is_asn_bogus(65535));
    assert!(is_asn_bogus(65536));
    assert!(is_asn_bogus(131071));
    assert!(!is_asn_bogus(131072));
    assert!(!is_asn_bogus(999_999));
    assert!(!is_asn_bogus(1_000_000));
    assert!(is_asn_bogus(1_000_001));
    assert!(is_asn_bogus(u32::MAX));
    assert_eq!(RESERVED_FIRST, 64496);
    assert_eq!(RESERVED_LAST, 131071);
    assert_eq!(ALLOCATED_LAST, 1_000_000);
}

#[test]
fn last_genuine_scans_from_the_end() {
    assert_eq!(last_genuine_asn(&vec![65000, 701, 64500]), Some(701));
    assert_eq!(last_genuine_asn(&vec![701, 702]), Some(702));
    assert_eq!(last_genuine_asn(&vec![701, 0, 0]), Some(701));
    assert_eq!(last_genuine_asn(&vec![0, 64496, 1_000_001]), None);
    assert_eq!(last_genuine_asn(&vec![]), None);
}

#[test]
fn genuine_keeps_wire_order() {
    assert_eq!(genuine_asns(&vec![701, 64497, 702]), vec![701, 702]);
    assert_eq!(genuine_asns(&vec![702, 0, 701, 702]), vec![702, 701, 702]);
    assert_eq!(genuine_asns(&vec![0, 65000]), Vec::<u32>::new());
    assert_eq!(genuine_asns(&vec![]), Vec::<u32>::new());
}

#[test]
fn sequence_gives_its_last_genuine_asn() {
    let path = AttributeAsPath::new(segment_bytes(2, &[65000, 701, 64500], true));
    assert_eq!(
        get_origin_as_from_bgp_attribute_as_path(&path, true),
        Ok(vec![701])
    );
}

#[test]
fn sequence_of_bogus_asns_has_no_origin() {
    let path = AttributeAsPath::new(segment_bytes(2, &[64496, 131071, 1_000_001], true));
    assert_eq!(
        get_origin_as_from_bgp_attribute_as_path(&path, true),
        Err(OriginError::NoOrigin)
    );
}

#[test]
fn asn_below_the_allocation_bound_is_an_origin() {
    let path = AttributeAsPath::new(segment_bytes(2, &[64496, 131071, 999_999], true));
    assert_eq!(
        get_origin_as_from_bgp_attribute_as_path(&path, true),
        Ok(vec![999_999])
    );
}

#[test]
fn set_at_the_end_is_authoritative() {
    let mut bytes = segment_bytes(2, &[65000], true);
    bytes.extend(segment_bytes(1, &[701, 64497, 702], true));
    let path = AttributeAsPath::new(bytes);
    assert_eq!(
        get_origin_as_from_bgp_attribute_as_path(&path, true),
        Ok(vec![701, 702])
    );
}

#[test]
fn set_of_bogus_asns_gives_an_empty_origin() {
    let mut bytes = segment_bytes(2, &[701], true);
    bytes.extend(segment_bytes(1, &[0, 65000], true));
    let path = AttributeAsPath::new(bytes);
    assert_eq!(
        get_origin_as_from_bgp_attribute_as_path(&path, true),
        Ok(vec![])
    );
}

#[test]
fn set_keeps_wire_order_and_repeats() {
    let path = AttributeAsPath::new(segment_bytes(1, &[702, 701, 702], true));
    assert_eq!(
        get_origin_as_from_bgp_attribute_as_path(&path, true),
        Ok(vec![702, 701, 702])
    );
}

#[test]
fn confederation_sequence_is_refused() {
    let path = AttributeAsPath::new(segment_bytes(3, &[701], true));
    assert_eq!(
        get_origin_as_from_bgp_attribute_as_path(&path, true),
        Err(OriginError::InvalidSegment(
            PathSegmentType::AsConfedSequence
        ))
    );
}

#[test]
fn confederation_set_and_unknown_segments_are_refused() {
    let path = AttributeAsPath::new(segment_bytes(4, &[701], true));
    assert_eq!(
        get_origin_as_from_bgp_attribute_as_path(&path, true),
        Err(OriginError::InvalidSegment(PathSegmentType::AsConfedSet))
    );
    let path = AttributeAsPath::new(segment_bytes(9, &[701], true));
    assert_eq!(
        get_origin_as_from_bgp_attribute_as_path(&path, true),
        Err(OriginError::InvalidSegment(PathSegmentType::Unknown(9)))
    );
}

#[test]
fn scan_goes_on_past_a_bogus_sequence() {
    let mut bytes = segment_bytes(2, &[3356, 701], true);
    bytes.extend(segment_bytes(2, &[65000, 0], true));
    let path = AttributeAsPath::new(bytes);
    assert_eq!(
        get_origin_as_from_bgp_attribute_as_path(&path, true),
        Ok(vec![701])
    );
}

#[test]
fn scan_reaches_a_confederation_behind_a_bogus_sequence() {
    let mut bytes = segment_bytes(3, &[701], true);
    bytes.extend(segment_bytes(2, &[65000], true));
    let path = AttributeAsPath::new(bytes);
    assert_eq!(
        get_origin_as_from_bgp_attribute_as_path(&path, true),
        Err(OriginError::InvalidSegment(
            PathSegmentType::AsConfedSequence
        ))
    );
}

#[test]
fn segments_before_the_origin_are_not_looked_at() {
    let mut bytes = segment_bytes(3, &[64512], true);
    bytes.extend(segment_bytes(2, &[701], true));
    let path = AttributeAsPath::new(bytes);
    assert_eq!(
        get_origin_as_from_bgp_attribute_as_path(&path, true),
        Ok(vec![701])
    );
}

#[test]
fn empty_path_has_no_origin() {
    let path = AttributeAsPath::new(vec![]);
    assert_eq!(
        get_origin_as_from_bgp_attribute_as_path(&path, true),
        Err(OriginError::NoOrigin)
    );
    assert_eq!(
        get_origin_as_from_path_segments(&vec![]),
        Err(OriginError::NoOrigin)
    );
}

#[test]
fn empty_sequence_is_passed_over() {
    let mut bytes = segment_bytes(2, &[701], true);
    bytes.extend(segment_bytes(2, &[], true));
    let path = AttributeAsPath::new(bytes);
    assert_eq!(
        get_origin_as_from_bgp_attribute_as_path(&path, true),
        Ok(vec![701])
    );
}

#[test]
fn truncated_path_is_a_parse_error() {
    let mut bytes = segment_bytes(2, &[701, 702], true);
    bytes.pop();
    let path = AttributeAsPath::new(bytes);
    assert_eq!(
        get_origin_as_from_bgp_attribute_as_path(&path, true),
        Err(OriginError::Parse(ParseError::UnexpectedEof))
    );
}

#[test]
fn width_decides_what_the_origin_is() {
    let bytes = segment_bytes(2, &[0x0003_02bd], true);
    let path = AttributeAsPath::new(bytes);
    // read as four bytes this is one AS number; read as two, the second
    // half starts a segment that is cut short
    assert_eq!(
        get_origin_as_from_bgp_attribute_as_path(&path, true),
        Ok(vec![197_309])
    );
    assert_eq!(
        get_origin_as_from_bgp_attribute_as_path(&path, false),
        Err(OriginError::Parse(ParseError::UnexpectedEof))
    );
    let narrow = AttributeAsPath::new(segment_bytes(2, &[3356, 701], false));
    assert_eq!(
        get_origin_as_from_bgp_attribute_as_path(&narrow, false),
        Ok(vec![701])
    );
}

#[test]
fn origin_from_decoded_segments() {
    let segments = vec![
        PathSegment {
            typ: PathSegmentType::AsSequence,
            values: vec![65000],
        },
        PathSegment {
            typ: PathSegmentType::AsSet,
            values: vec![701, 64497, 702],
        },
    ];
    assert_eq!(
        get_origin_as_from_path_segments(&segments),
        Ok(vec![701, 702])
    );
    let segments = vec![PathSegment {
        typ: PathSegmentType::AsSequence,
        values: vec![65000, 701, 64500],
    }];
    assert_eq!(get_origin_as_from_path_segments(&segments), Ok(vec![701]));
}

#[test]
fn sorted_set_sorts_and_removes_duplicates() {
    assert_eq!(sorted_set(vec![702, 701, 702, 3, 701]), vec![3, 701, 702]);
    assert_eq!(sorted_set(vec![5, 5, 5]), vec![5]);
    assert_eq!(sorted_set(vec![2, 1]), vec![1, 2]);
    assert_eq!(sorted_set(vec![1, 2, 1]), vec![1, 2]);
    assert_eq!(sorted_set(vec![]), Vec::<u32>::new());
    assert_eq!(
        sorted_set(vec![u32::MAX, 0, u32::MAX]),
        vec![0, u32::MAX]
    );
}

#[test]
fn rib_entry_origins_are_sorted_across_sub_entries() {
    let first = sub_entry_bytes(0, &as_path_attribute(&segment_bytes(2, &[3356, 702], true)));
    let second = sub_entry_bytes(1, &as_path_attribute(&segment_bytes(2, &[174, 701], true)));
    let entry = rib_entry(&[first, second]);
    assert_eq!(get_origin_as_from_rib_entry(&entry), Ok(vec![701, 702]));
}

#[test]
fn rib_entry_origins_are_deduplicated() {
    let a = sub_entry_bytes(0, &as_path_attribute(&segment_bytes(2, &[3356, 702], true)));
    let b = sub_entry_bytes(1, &as_path_attribute(&segment_bytes(2, &[174, 701], true)));
    let c = sub_entry_bytes(2, &as_path_attribute(&segment_bytes(1, &[702, 13, 702], true)));
    let entry = rib_entry(&[a, b, c]);
    assert_eq!(
        get_origin_as_from_rib_entry(&entry),
        Ok(vec![13, 701, 702])
    );
}

#[test]
fn rib_entry_without_paths_has_no_origins() {
    assert_eq!(get_origin_as_from_rib_entry(&rib_entry(&[])), Ok(vec![]));
    // an ORIGIN attribute only
    let only_origin = sub_entry_bytes(0, &[0x40, 1, 1, 0]);
    assert_eq!(
        get_origin_as_from_rib_entry(&rib_entry(&[only_origin])),
        Ok(vec![])
    );
}

#[test]
fn rib_entry_takes_every_path_of_a_sub_entry() {
    let mut attributes = as_path_attribute(&segment_bytes(2, &[702], true));
    attributes.extend_from_slice(&[0x40, 1, 1, 2]);
    attributes.extend(as_path_attribute(&segment_bytes(2, &[701], true)));
    let entry = rib_entry(&[sub_entry_bytes(0, &attributes)]);
    assert_eq!(get_origin_as_from_rib_entry(&entry), Ok(vec![701, 702]));
}

#[test]
fn rib_entry_fails_with_its_first_failing_path() {
    let good = sub_entry_bytes(0, &as_path_attribute(&segment_bytes(2, &[701], true)));
    let none = sub_entry_bytes(1, &as_path_attribute(&segment_bytes(2, &[65000], true)));
    let confed = sub_entry_bytes(2, &as_path_attribute(&segment_bytes(3, &[701], true)));
    assert_eq!(
        get_origin_as_from_rib_entry(&rib_entry(&[good.clone(), none.clone(), confed.clone()])),
        Err(OriginError::NoOrigin)
    );
    assert_eq!(
        get_origin_as_from_rib_entry(&rib_entry(&[good, confed, none])),
        Err(OriginError::InvalidSegment(
            PathSegmentType::AsConfedSequence
        ))
    );
}

#[test]
fn rib_entry_with_malformed_attributes_is_a_parse_error() {
    // the attribute declares five bytes of data and has two
    let bad = sub_entry_bytes(0, &[0x40, 2, 5, 2, 0]);
    assert_eq!(
        get_origin_as_from_rib_entry(&rib_entry(&[bad])),
        Err(OriginError::Parse(ParseError::UnexpectedEof))
    );
}

#[test]
fn rib_entry_built_by_hand() {
    let prefix = mrt::IpPrefix::new(mrt::IpAddress::V4(0x0a00_0000), 8).unwrap();
    let entry = RibEntry {
        sequence_number: 1,
        prefix,
        sub_entries: vec![
            RibSubEntry {
                peer_index: 0,
                originated_time: 0,
                data: as_path_attribute(&segment_bytes(2, &[702], true)),
            },
            RibSubEntry {
                peer_index: 1,
                originated_time: 0,
                data: as_path_attribute(&segment_bytes(2, &[701], true)),
            },
        ],
    };
    assert_eq!(get_origin_as_from_rib_entry(&entry), Ok(vec![701, 702]));
}

#[test]
fn afi_paths_carry_two_byte_asns() {
    let mut attributes = vec![0x40, 1, 1, 0];
    attributes.extend(as_path_attribute(&segment_bytes(2, &[3356, 701], false)));
    assert_eq!(get_origin_as_from_afi(&afi(&attributes)), Ok(vec![701]));
}

#[test]
fn afi_origins_are_sorted_and_deduplicated() {
    let mut attributes = as_path_attribute(&segment_bytes(1, &[702, 701, 702], false));
    attributes.extend(as_path_attribute(&segment_bytes(2, &[13], false)));
    assert_eq!(
        get_origin_as_from_afi(&afi(&attributes)),
        Ok(vec![13, 701, 702])
    );
}

#[test]
fn afi_errors() {
    assert_eq!(get_origin_as_from_afi(&afi(&[])), Ok(vec![]));
    let none = as_path_attribute(&segment_bytes(2, &[65000], false));
    assert_eq!(
        get_origin_as_from_afi(&afi(&none)),
        Err(OriginError::NoOrigin)
    );
    let confed = as_path_attribute(&segment_bytes(4, &[701], false));
    assert_eq!(
        get_origin_as_from_afi(&afi(&confed)),
        Err(OriginError::InvalidSegment(PathSegmentType::AsConfedSet))
    );
    assert_eq!(
        get_origin_as_from_afi(&afi(&[0x40, 2])),
        Err(OriginError::Parse(ParseError::UnexpectedEof))
    );
}
