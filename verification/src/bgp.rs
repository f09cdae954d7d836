//! BGP path attributes: the TLV framing of an attribute blob, and the
//! segments of an AS-PATH.

use crate::wire::{
    be_value, decoded, decoded_all, has_bytes, lemma_len_fits, lemma_views_push, read_exact, read_u16,
    read_u32, read_u8, u16_at, u32_at, views, wire_bytes, wire_u16, wire_u8, ParseError,
};
use vstd::prelude::*;

verus! {

/// The ORIGIN attribute's code.
#[derive(Debug, Clone, Copy, PartialEq, Eq, Structural)]
pub enum AttributeOrigin {
    Igp,
    Egp,
    Incomplete,
    Unknown(u8),
}

impl AttributeOrigin {
    /// The origin that the code `value` stands for.
    pub open spec fn of_code(value: u8) -> AttributeOrigin {
        if value == 0 {
            AttributeOrigin::Igp
        } else if value == 1 {
            AttributeOrigin::Egp
        } else if value == 2 {
            AttributeOrigin::Incomplete
        } else {
            AttributeOrigin::Unknown(value)
        }
    }

    /// Classifies an ORIGIN code; a code that is not assigned is kept.
    pub fn from(value: u8) -> (origin: AttributeOrigin)
        ensures
            origin == AttributeOrigin::of_code(value),
    {
        match value {
            0 => AttributeOrigin::Igp,
            1 => AttributeOrigin::Egp,
            2 => AttributeOrigin::Incomplete,
            _ => AttributeOrigin::Unknown(value),
        }
    }
}

/// The kind of an AS-PATH segment.
#[derive(Debug, Clone, Copy, PartialEq, Eq, Structural)]
pub enum PathSegmentType {
    AsSet,
    AsSequence,
    AsConfedSequence,
    AsConfedSet,
    Unknown(u8),
}

impl PathSegmentType {
    /// The kind that the code `value` stands for.
    pub open spec fn of_code(value: u8) -> PathSegmentType {
        if value == 1 {
            PathSegmentType::AsSet
        } else if value == 2 {
            PathSegmentType::AsSequence
        } else if value == 3 {
            PathSegmentType::AsConfedSequence
        } else if value == 4 {
            PathSegmentType::AsConfedSet
        } else {
            PathSegmentType::Unknown(value)
        }
    }

    /// Classifies a segment type code; a code that is not assigned is kept.
    pub fn from_code(value: u8) -> (kind: PathSegmentType)
        ensures
            kind == PathSegmentType::of_code(value),
    {
        match value {
            1 => PathSegmentType::AsSet,
            2 => PathSegmentType::AsSequence,
            3 => PathSegmentType::AsConfedSequence,
            4 => PathSegmentType::AsConfedSet,
            n => PathSegmentType::Unknown(n),
        }
    }
}

/// One segment of an AS-PATH: its kind and its AS numbers in wire order.
#[derive(Debug)]
pub struct PathSegment {
    pub typ: PathSegmentType,
    pub values: Vec<u32>,
}

/// What a [`PathSegment`] holds.
pub ghost struct PathSegmentView {
    pub typ: PathSegmentType,
    pub values: Seq<u32>,
}

impl View for PathSegment {
    type V = PathSegmentView;

    open spec fn view(&self) -> PathSegmentView {
        PathSegmentView { typ: self.typ, values: self.values@ }
    }
}

/// The number of bytes that one AS number takes on the wire.
pub open spec fn asn_width(is_asn_32bit: bool) -> int {
    if is_asn_32bit {
        4
    } else {
        2
    }
}

/// The AS number that starts at `pos`: four bytes, or two bytes extended
/// with zeros.
pub open spec fn asn_at(input: Seq<u8>, pos: int, is_asn_32bit: bool) -> u32 {
    if is_asn_32bit {
        u32_at(input, pos)
    } else {
        u16_at(input, pos) as u32
    }
}

/// The segment that starts at `pos`, and the position behind it: a type
/// byte, a count byte, then that many AS numbers.
pub open spec fn segment_at(input: Seq<u8>, pos: int, is_asn_32bit: bool) -> Result<
    (PathSegmentView, int),
    ParseError,
> {
    match wire_u8(input, pos) {
        Err(e) => Err(e),
        Ok(code) => match wire_u8(input, pos + 1) {
            Err(e) => Err(e),
            Ok(count) => {
                let width = asn_width(is_asn_32bit);
                if has_bytes(input, pos + 2, count * width) {
                    Ok(
                        (
                            PathSegmentView {
                                typ: PathSegmentType::of_code(code),
                                values: Seq::new(
                                    count as nat,
                                    |i: int| asn_at(input, pos + 2 + i * width, is_asn_32bit),
                                ),
                            },
                            pos + 2 + count * width,
                        ),
                    )
                } else {
                    Err(ParseError::UnexpectedEof)
                }
            },
        },
    }
}

/// The segments from `pos` to the end of `input`, behind those in `done`.
pub open spec fn segments_from(
    input: Seq<u8>,
    pos: int,
    is_asn_32bit: bool,
    done: Seq<PathSegmentView>,
) -> Result<Seq<PathSegmentView>, ParseError>
    decreases input.len() - pos,
{
    if pos < 0 || pos >= input.len() {
        Ok(done)
    } else {
        match segment_at(input, pos, is_asn_32bit) {
            Err(e) => Err(e),
            Ok((segment, next)) => segments_from(input, next, is_asn_32bit, done.push(segment)),
        }
    }
}

/// The segments that the whole of `input` holds.
pub open spec fn segments_of(input: Seq<u8>, is_asn_32bit: bool) -> Result<
    Seq<PathSegmentView>,
    ParseError,
> {
    segments_from(input, 0, is_asn_32bit, Seq::empty())
}

/// Decoding a segment with two-byte AS numbers yields none above 65535.
/// The width changes neither the kind of the segment nor the number of its
/// AS numbers: both are the two bytes in front. What decodes with four
/// bytes to the AS number decodes with two.
pub proof fn lemma_asn_width(input: Seq<u8>, pos: int, is_asn_32bit: bool)
    requires
        segment_at(input, pos, is_asn_32bit) is Ok,
    ensures
        segment_at(input, pos, false) is Ok,
        segment_at(input, pos, false).unwrap().0.typ == PathSegmentType::of_code(input[pos]),
        segment_at(input, pos, is_asn_32bit).unwrap().0.typ == PathSegmentType::of_code(
            input[pos],
        ),
        segment_at(input, pos, false).unwrap().0.values.len() == input[pos + 1],
        segment_at(input, pos, is_asn_32bit).unwrap().0.values.len() == input[pos + 1],
        forall|i: int|
            0 <= i < input[pos + 1] ==> #[trigger] segment_at(
                input,
                pos,
                false,
            ).unwrap().0.values[i] <= 65535,
{
}

impl PathSegment {
    /// Decodes the segment that starts at `pos` and returns it with the
    /// position behind it.
    pub fn parse(input: &[u8], pos: usize, is_asn_32bit: bool) -> (res: Result<
        (PathSegment, usize),
        ParseError,
    >)
        ensures
            decoded(res, segment_at(input@, pos as int, is_asn_32bit)),
    {
        proof {
            lemma_len_fits(input);
        }
        let typ = PathSegmentType::from_code(read_u8(input, pos)?);
        let count = read_u8(input, pos + 1)?;
        let ghost width = asn_width(is_asn_32bit);
        let mut values: Vec<u32> = Vec::with_capacity(count as usize);
        let mut at: usize = pos + 2;
        let mut i: u8 = 0;
        while i < count
            invariant
                i <= count,
                wire_u8(input@, pos as int) is Ok,
                wire_u8(input@, pos + 1) == Ok::<u8, ParseError>(count),
                width == asn_width(is_asn_32bit),
                at == pos + 2 + i * width,
                at <= input@.len() <= usize::MAX,
                values@.len() == i,
                forall|k: int|
                    0 <= k < i ==> values@[k] == asn_at(
                        input@,
                        pos + 2 + k * width,
                        is_asn_32bit,
                    ),
            ensures
                i == count,
            decreases count - i,
        {
            if is_asn_32bit {
                match read_u32(input, at) {
                    Ok(value) => {
                        values.push(value);
                        at = at + 4;
                    },
                    Err(e) => {
                        return Err(e);
                    },
                }
            } else {
                match read_u16(input, at) {
                    Ok(value) => {
                        values.push(value as u32);
                        at = at + 2;
                    },
                    Err(e) => {
                        return Err(e);
                    },
                }
            }
            i = i + 1;
        }
        proof {
            assert(values@ =~= segment_at(input@, pos as int, is_asn_32bit).unwrap().0.values);
        }
        Ok((PathSegment { typ, values }, at))
    }
}

/// The raw bytes of an AS-PATH attribute. They are decoded on demand, since
/// the width of the AS numbers in them is known only to the record around.
#[derive(Debug)]
pub struct AttributeAsPath {
    data: Vec<u8>,
}

impl View for AttributeAsPath {
    type V = Seq<u8>;

    closed spec fn view(&self) -> Seq<u8> {
        self.data@
    }
}

impl AttributeAsPath {
    /// An AS-PATH attribute with the payload `data`.
    pub fn new(data: Vec<u8>) -> (path: AttributeAsPath)
        ensures
            path@ == data@,
    {
        AttributeAsPath { data }
    }

    /// Decodes the segments of the path, in wire order; `is_asn_32bit`
    /// tells whether an AS number takes four bytes or two.
    pub fn get_path_segments(&self, is_asn_32bit: bool) -> (res: Result<
        Vec<PathSegment>,
        ParseError,
    >)
        ensures
            decoded_all(res, segments_of(self@, is_asn_32bit)),
    {
        let input = self.data.as_slice();
        let mut output: Vec<PathSegment> = Vec::new();
        let mut pos: usize = 0;
        proof {
            lemma_len_fits(input);
            assert(views(output@) =~= Seq::<PathSegmentView>::empty());
        }
        while pos < input.len()
            invariant
                input@ == self@,
                segments_of(self@, is_asn_32bit) == segments_from(
                    input@,
                    pos as int,
                    is_asn_32bit,
                    views(output@),
                ),
            decreases input@.len() - pos,
        {
            match PathSegment::parse(input, pos, is_asn_32bit) {
                Err(e) => {
                    return Err(e);
                },
                Ok((segment, next)) => {
                    proof {
                        lemma_views_push(output@, segment);
                    }
                    output.push(segment);
                    pos = next;
                },
            }
        }
        Ok(output)
    }
}

/// One path attribute.
#[derive(Debug)]
pub enum Attribute {
    Origin(AttributeOrigin),
    AsPath(AttributeAsPath),
    Unknown(u8),
}

/// What an [`Attribute`] holds.
pub ghost enum AttributeView {
    Origin(AttributeOrigin),
    AsPath(Seq<u8>),
    Unknown(u8),
}

impl View for Attribute {
    type V = AttributeView;

    open spec fn view(&self) -> AttributeView {
        match *self {
            Attribute::Origin(origin) => AttributeView::Origin(origin),
            Attribute::AsPath(path) => AttributeView::AsPath(path@),
            Attribute::Unknown(type_id) => AttributeView::Unknown(type_id),
        }
    }
}

/// Bit 4 of the flags byte: the attribute's length takes two bytes.
pub open spec fn has_extended_length(flags: u8) -> bool {
    flags & 0x10 == 0x10
}

/// The number of bytes in front of an attribute's data.
pub open spec fn attribute_header_len(flags: u8) -> int {
    if has_extended_length(flags) {
        4
    } else {
        3
    }
}

/// The attribute of type `type_id` with the payload `data`: the first byte
/// of an ORIGIN, the whole of an AS-PATH, and of any other only its type.
/// An ORIGIN without a byte is cut short.
pub open spec fn attribute_of(type_id: u8, data: Seq<u8>) -> Result<AttributeView, ParseError> {
    if type_id == 1 {
        if data.len() == 0 {
            Err(ParseError::UnexpectedEof)
        } else {
            Ok(AttributeView::Origin(AttributeOrigin::of_code(data[0])))
        }
    } else if type_id == 2 {
        Ok(AttributeView::AsPath(data))
    } else {
        Ok(AttributeView::Unknown(type_id))
    }
}

/// The length field of the attribute that starts at `pos`.
pub open spec fn attribute_length_at(input: Seq<u8>, pos: int, flags: u8) -> Result<
    u16,
    ParseError,
> {
    if has_extended_length(flags) {
        wire_u16(input, pos + 2)
    } else {
        match wire_u8(input, pos + 2) {
            Ok(length) => Ok(length as u16),
            Err(e) => Err(e),
        }
    }
}

/// The attribute that starts at `pos`, and the position behind it: a flags
/// byte, a type byte, a length of one or two bytes, then that many bytes.
pub open spec fn attribute_at(input: Seq<u8>, pos: int) -> Result<(AttributeView, int), ParseError> {
    match wire_u8(input, pos) {
        Err(e) => Err(e),
        Ok(flags) => match wire_u8(input, pos + 1) {
            Err(e) => Err(e),
            Ok(type_id) => match attribute_length_at(input, pos, flags) {
                Err(e) => Err(e),
                Ok(length) => {
                    let start = pos + attribute_header_len(flags);
                    match wire_bytes(input, start, length as int) {
                        Err(e) => Err(e),
                        Ok(data) => match attribute_of(type_id, data) {
                            Err(e) => Err(e),
                            Ok(attribute) => Ok((attribute, start + length)),
                        },
                    }
                },
            },
        },
    }
}

/// The attributes from `pos` to the end of `input`, behind those in `done`.
pub open spec fn attributes_from(input: Seq<u8>, pos: int, done: Seq<AttributeView>) -> Result<
    Seq<AttributeView>,
    ParseError,
>
    decreases input.len() - pos,
{
    if pos < 0 || pos >= input.len() {
        Ok(done)
    } else {
        match attribute_at(input, pos) {
            Err(e) => Err(e),
            Ok((attribute, next)) => attributes_from(input, next, done.push(attribute)),
        }
    }
}

/// The attributes that the whole of `input` holds, in wire order.
pub open spec fn attributes_of(input: Seq<u8>) -> Result<Seq<AttributeView>, ParseError> {
    attributes_from(input, 0, Seq::empty())
}

/// The bytes of an attribute with the given flags, type and payload: the
/// length takes two bytes where the flags say so, and one where they do not.
pub open spec fn attribute_bytes(flags: u8, type_id: u8, data: Seq<u8>) -> Seq<u8> {
    if has_extended_length(flags) {
        seq![flags, type_id, (data.len() / 256) as u8, (data.len() % 256) as u8] + data
    } else {
        seq![flags, type_id, data.len() as u8] + data
    }
}

/// Decoding what was framed gives back the type and the payload: the bytes
/// of an attribute, with whatever follows them, decode to the attribute of
/// that type and payload, and end where the payload ends.
pub proof fn lemma_attribute_round_trip(flags: u8, type_id: u8, data: Seq<u8>, rest: Seq<u8>)
    requires
        data.len() <= (if has_extended_length(flags) {
            65535int
        } else {
            255int
        }),
    ensures
        attribute_at(attribute_bytes(flags, type_id, data) + rest, 0) == match attribute_of(
            type_id,
            data,
        ) {
            Ok(attribute) => Ok::<(AttributeView, int), ParseError>(
                (attribute, attribute_header_len(flags) + data.len()),
            ),
            Err(e) => Err(e),
        },
        type_id == 2 ==> attribute_at(attribute_bytes(flags, type_id, data) + rest, 0) == Ok::<
            (AttributeView, int),
            ParseError,
        >((AttributeView::AsPath(data), attribute_header_len(flags) + data.len())),
{
    let input = attribute_bytes(flags, type_id, data) + rest;
    let start = attribute_header_len(flags);
    assert(input[0] == flags && input[1] == type_id);
    if has_extended_length(flags) {
        let high = (data.len() / 256) as u8;
        let low = (data.len() % 256) as u8;
        let field = input.subrange(2, 4);
        assert(field =~= seq![high, low]);
        assert(field.drop_last() =~= seq![high]);
        assert(field.drop_last().drop_last() =~= Seq::<u8>::empty());
        reveal_with_fuel(be_value, 3);
        assert(be_value(field) == high * 256 + low);
        assert(u16_at(input, 2) == data.len());
    } else {
        assert(input[2] == data.len());
    }
    assert(input.subrange(start, start + data.len()) =~= data);
}

/// A payload of at most 255 bytes decodes to the same attribute whether its
/// length is framed in one byte or in two.
pub proof fn lemma_length_encoding_is_immaterial(
    short_flags: u8,
    long_flags: u8,
    type_id: u8,
    data: Seq<u8>,
    rest: Seq<u8>,
)
    requires
        !has_extended_length(short_flags),
        has_extended_length(long_flags),
        data.len() <= 255,
    ensures
        match (
            attribute_at(attribute_bytes(short_flags, type_id, data) + rest, 0),
            attribute_at(attribute_bytes(long_flags, type_id, data) + rest, 0),
        ) {
            (Ok((short, _)), Ok((long, _))) => short == long,
            (Err(e), Err(f)) => e == f,
            _ => false,
        },
{
    lemma_attribute_round_trip(short_flags, type_id, data, rest);
    lemma_attribute_round_trip(long_flags, type_id, data, rest);
}

impl Attribute {
    /// Decodes attributes until `input` is used up. One that is malformed
    /// fails the whole call.
    pub fn parse_all(input: &[u8]) -> (res: Result<Vec<Attribute>, ParseError>)
        ensures
            decoded_all(res, attributes_of(input@)),
    {
        let mut output: Vec<Attribute> = Vec::new();
        let mut pos: usize = 0;
        proof {
            lemma_len_fits(input);
            assert(views(output@) =~= Seq::<AttributeView>::empty());
        }
        while pos < input.len()
            invariant
                attributes_of(input@) == attributes_from(input@, pos as int, views(output@)),
            decreases input@.len() - pos,
        {
            match Attribute::parse(input, pos) {
                Err(e) => {
                    return Err(e);
                },
                Ok((attribute, next)) => {
                    proof {
                        lemma_views_push(output@, attribute);
                    }
                    output.push(attribute);
                    pos = next;
                },
            }
        }
        Ok(output)
    }

    /// Decodes the attribute that starts at `pos` and returns it with the
    /// position behind it.
    pub fn parse(input: &[u8], pos: usize) -> (res: Result<(Attribute, usize), ParseError>)
        ensures
            decoded(res, attribute_at(input@, pos as int)),
    {
        proof {
            lemma_len_fits(input);
        }
        let flags = read_u8(input, pos)?;
        let has_extra_length = flags & 0x10 == 0x10;
        let type_id = read_u8(input, pos + 1)?;
        let length: u16 = if has_extra_length {
            read_u16(input, pos + 2)?
        } else {
            read_u8(input, pos + 2)? as u16
        };
        let start: usize = if has_extra_length {
            pos + 4
        } else {
            pos + 3
        };
        let data = read_exact(input, start, length as usize)?;
        let next: usize = start + length as usize;
        match type_id {
            1 => {
                if data.len() == 0 {
                    Err(ParseError::UnexpectedEof)
                } else {
                    Ok((Attribute::Origin(AttributeOrigin::from(data[0])), next))
                }
            },
            2 => Ok((Attribute::AsPath(AttributeAsPath { data }), next)),
            _ => Ok((Attribute::Unknown(type_id), next)),
        }
    }
}

} // verus!
