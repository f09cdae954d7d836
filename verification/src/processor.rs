//! The origin AS of a route: the AS at the far end of its AS-PATH, found by
//! scanning the path backward past AS numbers that cannot be an origin.

use crate::bgp::{
    attributes_of, segments_of, Attribute, AttributeAsPath, AttributeView, PathSegment,
    PathSegmentType, PathSegmentView,
};
use crate::records::{Afi, RibEntry, RibSubEntryView};
use crate::wire::{views, ParseError};
use vstd::prelude::*;

verus! {

/// The first AS number of the block that is reserved for documentation,
/// private use and the like.
pub const RESERVED_FIRST: u32 = 64_496;

/// The last AS number of that block.
pub const RESERVED_LAST: u32 = 131_071;

/// No AS number above this one is taken to be allocated.
pub const ALLOCATED_LAST: u32 = 1_000_000;

/// Why a route has no origin AS.
#[derive(Debug, Clone, Copy, PartialEq, Eq, Structural)]
pub enum OriginError {
    /// The attributes or the path could not be decoded.
    Parse(ParseError),
    /// The scan met a segment that is neither a sequence nor a set; such a
    /// segment names no public origin.
    InvalidSegment(PathSegmentType),
    /// The scan ran through the whole path and met no usable AS number.
    NoOrigin,
}

/// `asn` cannot be the origin of a route: it is zero, reserved, or beyond
/// what is allocated.
pub open spec fn is_bogus(asn: u32) -> bool {
    asn == 0 || (RESERVED_FIRST <= asn && asn <= RESERVED_LAST) || asn > ALLOCATED_LAST
}

/// Whether `input` cannot be the origin of a route.
pub fn is_asn_bogus(input: u32) -> (bogus: bool)
    ensures
        bogus == is_bogus(input),
{
    input == 0 || (input >= RESERVED_FIRST && input <= RESERVED_LAST) || input > ALLOCATED_LAST
}

/// The last of `values` that is not bogus.
pub open spec fn last_genuine(values: Seq<u32>) -> Option<u32>
    decreases values.len(),
{
    if values.len() == 0 {
        None
    } else if !is_bogus(values.last()) {
        Some(values.last())
    } else {
        last_genuine(values.drop_last())
    }
}

/// Those of `values` that are not bogus, in their order.
pub open spec fn genuine(values: Seq<u32>) -> Seq<u32> {
    values.filter(|asn: u32| !is_bogus(asn))
}

/// The origin of a path with the given segments, by a scan from the last
/// segment to the first. A sequence gives its last AS number that is not
/// bogus, and the scan goes on to the segment before only if it has none. A
/// set gives all its AS numbers that are not bogus, be they none. Any other
/// segment ends the scan with an error, and so does running out of segments.
pub open spec fn origin_of(segments: Seq<PathSegmentView>) -> Result<Seq<u32>, OriginError>
    decreases segments.len(),
{
    if segments.len() == 0 {
        Err(OriginError::NoOrigin)
    } else {
        let segment = segments.last();
        match segment.typ {
            PathSegmentType::AsSequence => match last_genuine(segment.values) {
                Some(asn) => Ok(seq![asn]),
                None => origin_of(segments.drop_last()),
            },
            PathSegmentType::AsSet => Ok(genuine(segment.values)),
            other => Err(OriginError::InvalidSegment(other)),
        }
    }
}

/// The origin of the path whose attribute bytes are `data`.
pub open spec fn path_origin(data: Seq<u8>, is_asn_32bit: bool) -> Result<Seq<u32>, OriginError> {
    match segments_of(data, is_asn_32bit) {
        Err(e) => Err(OriginError::Parse(e)),
        Ok(segments) => origin_of(segments),
    }
}

/// `res` is the outcome `expected`: the same error, or the same AS numbers
/// in the same order.
pub open spec fn origin_is(res: Result<Vec<u32>, OriginError>, expected: Result<
    Seq<u32>,
    OriginError,
>) -> bool {
    match expected {
        Ok(origins) => res is Ok && res.unwrap()@ == origins,
        Err(e) => res == Err::<Vec<u32>, OriginError>(e),
    }
}

/// The last of `values` that is not bogus.
pub fn last_genuine_asn(values: &Vec<u32>) -> (found: Option<u32>)
    ensures
        found == last_genuine(values@),
{
    let mut at: usize = values.len();
    proof {
        assert(values@.take(at as int) =~= values@);
    }
    while at > 0
        invariant
            at <= values@.len(),
            last_genuine(values@) == last_genuine(values@.take(at as int)),
        decreases at,
    {
        at = at - 1;
        let value = values[at];
        proof {
            let upto = values@.take(at + 1);
            assert(upto.last() == value);
            assert(upto.drop_last() =~= values@.take(at as int));
        }
        if !is_asn_bogus(value) {
            return Some(value);
        }
    }
    None
}

/// Those of `values` that are not bogus, in their order.
pub fn genuine_asns(values: &Vec<u32>) -> (kept: Vec<u32>)
    ensures
        kept@ == genuine(values@),
{
    let mut kept: Vec<u32> = Vec::new();
    let mut at: usize = 0;
    proof {
        reveal(Seq::filter);
        assert(values@.take(0) =~= Seq::<u32>::empty());
    }
    while at < values.len()
        invariant
            at <= values@.len(),
            kept@ == genuine(values@.take(at as int)),
        decreases values@.len() - at,
    {
        let value = values[at];
        proof {
            reveal(Seq::filter);
            let upto = values@.take(at + 1);
            assert(upto.last() == value);
            assert(upto.drop_last() =~= values@.take(at as int));
        }
        if !is_asn_bogus(value) {
            kept.push(value);
        }
        at = at + 1;
    }
    proof {
        assert(values@.take(at as int) =~= values@);
    }
    kept
}

/// The origin of a path that has been decoded into `path_segments`. The
/// first segment is not held to be a sequence.
pub fn get_origin_as_from_path_segments(path_segments: &Vec<PathSegment>) -> (res: Result<
    Vec<u32>,
    OriginError,
>)
    ensures
        origin_is(res, origin_of(views(path_segments@))),
{
    let ghost all = views(path_segments@);
    let mut at: usize = path_segments.len();
    proof {
        assert(all.take(at as int) =~= all);
    }
    while at > 0
        invariant
            at <= path_segments@.len(),
            all == views(path_segments@),
            origin_of(all) == origin_of(all.take(at as int)),
        decreases at,
    {
        at = at - 1;
        let segment = &path_segments[at];
        proof {
            let upto = all.take(at + 1);
            assert(upto.last() == segment@);
            assert(upto.drop_last() =~= all.take(at as int));
        }
        match segment.typ {
            PathSegmentType::AsSequence => {
                match last_genuine_asn(&segment.values) {
                    Some(value) => {
                        let found = vec![value];
                        proof {
                            assert(found@ =~= seq![value]);
                        }
                        return Ok(found);
                    },
                    None => {},
                }
            },
            PathSegmentType::AsSet => {
                return Ok(genuine_asns(&segment.values));
            },
            other => {
                return Err(OriginError::InvalidSegment(other));
            },
        }
    }
    Err(OriginError::NoOrigin)
}

/// The origin of the route whose AS-PATH attribute is `path`;
/// `is_asn_32bit` tells whether an AS number in it takes four bytes or two.
pub fn get_origin_as_from_bgp_attribute_as_path(path: &AttributeAsPath, is_asn_32bit: bool) -> (res:
    Result<Vec<u32>, OriginError>)
    ensures
        origin_is(res, path_origin(path@, is_asn_32bit)),
{
    match path.get_path_segments(is_asn_32bit) {
        Err(e) => Err(OriginError::Parse(e)),
        Ok(path_segments) => get_origin_as_from_path_segments(&path_segments),
    }
}

/// The origins of the AS-PATH attributes among `attributes` from the index
/// `from` on, in order, behind those in `done`. The first path without an
/// origin fails them all.
pub open spec fn attributes_origins(
    attributes: Seq<AttributeView>,
    from: int,
    is_asn_32bit: bool,
    done: Seq<u32>,
) -> Result<Seq<u32>, OriginError>
    decreases attributes.len() - from,
{
    if from < 0 || from >= attributes.len() {
        Ok(done)
    } else {
        match attributes[from] {
            AttributeView::AsPath(data) => match path_origin(data, is_asn_32bit) {
                Err(e) => Err(e),
                Ok(origins) => attributes_origins(
                    attributes,
                    from + 1,
                    is_asn_32bit,
                    done + origins,
                ),
            },
            _ => attributes_origins(attributes, from + 1, is_asn_32bit, done),
        }
    }
}

/// The origins of the paths in the attribute bytes `data`, behind those in
/// `done`.
pub open spec fn blob_origins(data: Seq<u8>, is_asn_32bit: bool, done: Seq<u32>) -> Result<
    Seq<u32>,
    OriginError,
> {
    match attributes_of(data) {
        Err(e) => Err(OriginError::Parse(e)),
        Ok(attributes) => attributes_origins(attributes, 0, is_asn_32bit, done),
    }
}

/// The origins of the paths of the sub-entries from the index `from` on,
/// behind those in `done`. The AS numbers of a RIB entry take four bytes.
pub open spec fn sub_entries_origins(
    sub_entries: Seq<RibSubEntryView>,
    from: int,
    done: Seq<u32>,
) -> Result<Seq<u32>, OriginError>
    decreases sub_entries.len() - from,
{
    if from < 0 || from >= sub_entries.len() {
        Ok(done)
    } else {
        match blob_origins(sub_entries[from].data, true, done) {
            Err(e) => Err(e),
            Ok(more) => sub_entries_origins(sub_entries, from + 1, more),
        }
    }
}

/// `values` never falls.
pub open spec fn ascending(values: Seq<u32>) -> bool {
    forall|i: int, j: int| 0 <= i <= j < values.len() ==> values[i] <= values[j]
}

/// `values` rises at every step, so nothing occurs in it twice.
pub open spec fn strictly_ascending(values: Seq<u32>) -> bool {
    forall|i: int, j: int| 0 <= i < j < values.len() ==> values[i] < values[j]
}

/// `values` with each run of equal neighbours cut down to one of them.
pub open spec fn without_repeats(values: Seq<u32>) -> Seq<u32>
    decreases values.len(),
{
    if values.len() <= 1 {
        values
    } else if values[values.len() - 2] == values.last() {
        without_repeats(values.drop_last())
    } else {
        without_repeats(values.drop_last()).push(values.last())
    }
}

/// `result` holds the members of `all`, each once, in rising order.
pub open spec fn is_sorted_set_of(result: Seq<u32>, all: Seq<u32>) -> bool {
    strictly_ascending(result) && forall|asn: u32| result.contains(asn) <==> all.contains(asn)
}

/// `res` is the outcome `expected`: the same error, or the AS numbers
/// expected, each once, in rising order.
pub open spec fn origins_are(res: Result<Vec<u32>, OriginError>, expected: Result<
    Seq<u32>,
    OriginError,
>) -> bool {
    match expected {
        Ok(all) => res is Ok && is_sorted_set_of(res.unwrap()@, all),
        Err(e) => res == Err::<Vec<u32>, OriginError>(e),
    }
}

/// `slice::sort_unstable` of std, which sorts without keeping the order of
/// equal elements. Trusted: afterwards the values never fall, and each
/// occurs as often as before.
#[verifier::external_body]
fn sort_unstable(values: &mut Vec<u32>)
    ensures
        ascending(final(values)@),
        final(values)@.to_multiset() == old(values)@.to_multiset(),
{
    values.sort_unstable();
}

/// `Vec::dedup` of std, which removes consecutive repeated elements.
/// Trusted: what is left is one element of each run of equal neighbours, in
/// the order of the runs.
#[verifier::external_body]
fn dedup(values: &mut Vec<u32>)
    ensures
        final(values)@ == without_repeats(old(values)@),
{
    values.dedup();
}

/// Cutting the repeats out of values that never fall leaves the same
/// members, each once, in rising order.
pub proof fn lemma_without_repeats(values: Seq<u32>)
    requires
        ascending(values),
    ensures
        is_sorted_set_of(without_repeats(values), values),
        values.len() > 0 ==> without_repeats(values).len() > 0 && without_repeats(values).last()
            == values.last(),
    decreases values.len(),
{
    if values.len() > 1 {
        let front = values.drop_last();
        let last = values.last();
        let cut = without_repeats(front);
        assert(ascending(front)) by {
            assert forall|i: int, j: int| 0 <= i <= j < front.len() implies front[i] <= front[j] by {
                assert(front[i] == values[i] && front[j] == values[j]);
            }
        }
        lemma_without_repeats(front);
        assert(front.last() == values[values.len() - 2]);
        assert(values =~= front.push(last));
        let result = without_repeats(values);
        assert forall|asn: u32| result.contains(asn) <==> values.contains(asn) by {
            if values.contains(asn) {
                let k = choose|k: int| 0 <= k < values.len() && values[k] == asn;
                if k < front.len() {
                    assert(front[k] == asn);
                    assert(front.contains(asn));
                    assert(cut.contains(asn));
                    let c = choose|c: int| 0 <= c < cut.len() && cut[c] == asn;
                    assert(result[c] == asn);
                } else {
                    assert(asn == last);
                    assert(result.last() == last);
                    assert(result[result.len() - 1] == asn);
                }
            }
            if result.contains(asn) {
                let c = choose|c: int| 0 <= c < result.len() && result[c] == asn;
                if c < cut.len() {
                    assert(cut[c] == asn);
                    assert(cut.contains(asn));
                    assert(front.contains(asn));
                    let k = choose|k: int| 0 <= k < front.len() && front[k] == asn;
                    assert(values[k] == asn);
                } else {
                    assert(asn == last);
                    assert(values[values.len() - 1] == asn);
                }
            }
        }
        if front.last() != last {
            assert(front.last() <= last) by {
                assert(values[values.len() - 2] <= values[values.len() - 1]);
            }
            assert forall|i: int, j: int| 0 <= i < j < result.len() implies result[i] < result[j] by {
                if j < cut.len() {
                    assert(cut[i] < cut[j]);
                } else {
                    assert(result[j] == last);
                    if i < cut.len() - 1 {
                        assert(cut[i] < cut[cut.len() - 1]);
                    }
                }
            }
        }
    }
}

/// The members of a sequence fix its sorted set: two sequences that hold the
/// same members, each once, in rising order, are the same sequence.
pub proof fn lemma_sorted_set_is_unique(first: Seq<u32>, second: Seq<u32>, all: Seq<u32>)
    requires
        is_sorted_set_of(first, all),
        is_sorted_set_of(second, all),
    ensures
        first == second,
    decreases first.len(),
{
    if first.len() == 0 {
        if second.len() > 0 {
            assert(second.contains(second[0]));
            assert(first.contains(second[0]));
        }
        assert(first =~= second);
    } else {
        let top = first.last();
        assert(first.contains(top));
        assert(second.contains(top));
        let k = choose|k: int| 0 <= k < second.len() && second[k] == top;
        assert(second.contains(second.last()));
        assert(first.contains(second.last()));
        let j = choose|j: int| 0 <= j < first.len() && first[j] == second.last();
        assert(second.last() == top) by {
            if j < first.len() - 1 {
                assert(first[j] < first[first.len() - 1]);
            }
            if k < second.len() - 1 {
                assert(second[k] < second[second.len() - 1]);
            }
        }
        let first_front = first.drop_last();
        let second_front = second.drop_last();
        assert forall|asn: u32| first_front.contains(asn) <==> second_front.contains(asn) by {
            if first_front.contains(asn) {
                let i = choose|i: int| 0 <= i < first_front.len() && first_front[i] == asn;
                assert(first[i] == asn && first[i] < first[first.len() - 1]);
                assert(first.contains(asn));
                assert(second.contains(asn));
                let m = choose|m: int| 0 <= m < second.len() && second[m] == asn;
                assert(m < second.len() - 1);
                assert(second_front[m] == asn);
            }
            if second_front.contains(asn) {
                let i = choose|i: int| 0 <= i < second_front.len() && second_front[i] == asn;
                assert(second[i] == asn && second[i] < second[second.len() - 1]);
                assert(second.contains(asn));
                assert(first.contains(asn));
                let m = choose|m: int| 0 <= m < first.len() && first[m] == asn;
                assert(m < first.len() - 1);
                assert(first_front[m] == asn);
            }
        }
        assert(strictly_ascending(first_front)) by {
            assert forall|i: int, j: int| 0 <= i < j < first_front.len() implies first_front[i]
                < first_front[j] by {
                assert(first[i] < first[j]);
            }
        }
        assert(strictly_ascending(second_front)) by {
            assert forall|i: int, j: int| 0 <= i < j < second_front.len() implies second_front[i]
                < second_front[j] by {
                assert(second[i] < second[j]);
            }
        }
        lemma_sorted_set_is_unique(first_front, second_front, first_front);
        assert(first =~= first_front.push(top));
        assert(second =~= second_front.push(top));
    }
}

/// Sorts `values` and leaves each of them once.
pub fn sorted_set(values: Vec<u32>) -> (result: Vec<u32>)
    ensures
        is_sorted_set_of(result@, values@),
{
    let mut result = values;
    sort_unstable(&mut result);
    let ghost sorted = result@;
    dedup(&mut result);
    proof {
        lemma_without_repeats(sorted);
        sorted.to_multiset_ensures();
        values@.to_multiset_ensures();
        assert forall|asn: u32| result@.contains(asn) <==> values@.contains(asn) by {
            assert(sorted.contains(asn) <==> sorted.to_multiset().count(asn) > 0);
            assert(values@.contains(asn) <==> values@.to_multiset().count(asn) > 0);
        }
    }
    result
}

/// Appends to `output` the origins of the AS-PATH attributes among
/// `attributes`, in order.
fn append_origins(attributes: &Vec<Attribute>, is_asn_32bit: bool, output: &mut Vec<u32>) -> (res:
    Result<(), OriginError>)
    ensures
        match attributes_origins(views(attributes@), 0, is_asn_32bit, old(output)@) {
            Ok(all) => res is Ok && final(output)@ == all,
            Err(e) => res == Err::<(), OriginError>(e),
        },
{
    let ghost all = views(attributes@);
    let ghost start = output@;
    let mut at: usize = 0;
    while at < attributes.len()
        invariant
            at <= attributes@.len(),
            all == views(attributes@),
            start == old(output)@,
            attributes_origins(all, 0, is_asn_32bit, start) == attributes_origins(
                all,
                at as int,
                is_asn_32bit,
                output@,
            ),
        decreases attributes@.len() - at,
    {
        proof {
            assert(all[at as int] == attributes@[at as int]@);
        }
        match &attributes[at] {
            Attribute::AsPath(as_path) => {
                proof {
                    assert(all[at as int] == AttributeView::AsPath(as_path@));
                }
                match get_origin_as_from_bgp_attribute_as_path(as_path, is_asn_32bit) {
                    Err(e) => {
                        return Err(e);
                    },
                    Ok(origins) => {
                        let mut origins = origins;
                        output.append(&mut origins);
                    },
                }
            },
            _ => {},
        }
        at = at + 1;
    }
    Ok(())
}

/// The origin ASes of the routes of a RIB entry: those of every AS-PATH of
/// every sub-entry, each once, in rising order. The first sub-entry whose
/// attributes cannot be decoded, or whose path has no origin, fails the
/// entry with that error.
pub fn get_origin_as_from_rib_entry(input: &RibEntry) -> (res: Result<Vec<u32>, OriginError>)
    ensures
        origins_are(res, sub_entries_origins(input@.sub_entries, 0, Seq::empty())),
{
    let mut output: Vec<u32> = Vec::new();
    let ghost all = input@.sub_entries;
    let mut at: usize = 0;
    while at < input.sub_entries.len()
        invariant
            at <= input.sub_entries@.len(),
            all == input@.sub_entries,
            sub_entries_origins(all, 0, Seq::empty()) == sub_entries_origins(
                all,
                at as int,
                output@,
            ),
        decreases input.sub_entries@.len() - at,
    {
        let sub_entry = &input.sub_entries[at];
        proof {
            assert(all[at as int] == sub_entry@);
        }
        match sub_entry.get_bgp_attributes() {
            Err(e) => {
                return Err(OriginError::Parse(e));
            },
            Ok(attributes) => {
                match append_origins(&attributes, true, &mut output) {
                    Err(e) => {
                        return Err(e);
                    },
                    Ok(()) => {},
                }
            },
        }
        at = at + 1;
    }
    Ok(sorted_set(output))
}

/// The origin ASes of a legacy route: those of every AS-PATH among its
/// attributes, each once, in rising order. The AS numbers of a legacy
/// record take two bytes.
pub fn get_origin_as_from_afi(afi: &Afi) -> (res: Result<Vec<u32>, OriginError>)
    ensures
        origins_are(res, blob_origins(afi@.data, false, Seq::empty())),
{
    let mut output: Vec<u32> = Vec::new();
    match afi.get_bgp_attributes() {
        Err(e) => {
            return Err(OriginError::Parse(e));
        },
        Ok(attributes) => {
            match append_origins(&attributes, false, &mut output) {
                Err(e) => {
                    return Err(e);
                },
                Ok(()) => {},
            }
        },
    }
    Ok(sorted_set(output))
}

} // verus!
