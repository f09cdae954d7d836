//! A reader of MRT records out of a buffer: header by header, each followed
//! by its payload, which is decoded or skipped.

use crate::header::{header_at, MrtHeader, HEADER_LEN};
use crate::records::Message;
use crate::wire::{available, has_bytes, wire_bytes, ParseError};
use vstd::prelude::*;
use vstd::slice::slice_subrange;

verus! {

/// The bytes of a stream of MRT records, and a position in them. No call
/// moves the position backward, and none reads past the payload that a
/// header declares.
pub struct Parser {
    data: Vec<u8>,
    pos: usize,
}

impl Parser {
    /// The bytes of the stream.
    pub closed spec fn input(&self) -> Seq<u8> {
        self.data@
    }

    /// The number of bytes that have been consumed.
    pub closed spec fn consumed(&self) -> int {
        self.pos as int
    }

    /// A parser at the start of `data`.
    pub fn new(data: Vec<u8>) -> (parser: Parser)
        ensures
            parser.input() == data@,
            parser.consumed() == 0,
    {
        Parser { data, pos: 0 }
    }

    /// The number of bytes that have been consumed.
    pub fn position(&self) -> (pos: usize)
        ensures
            pos == self.consumed(),
    {
        self.pos
    }

    /// Reads the header at the position and moves behind its twelve bytes.
    /// A header that is cut short consumes nothing.
    pub fn read_header(&mut self) -> (res: Result<MrtHeader, ParseError>)
        ensures
            final(self).input() == old(self).input(),
            res == header_at(old(self).input(), old(self).consumed()),
            final(self).consumed() == if res is Ok {
                old(self).consumed() + 12
            } else {
                old(self).consumed()
            },
    {
        let res = MrtHeader::parse(self.data.as_slice(), self.pos);
        proof {
            assert(self.data.len() <= usize::MAX);
        }
        if res.is_ok() {
            self.pos = self.pos + HEADER_LEN;
        }
        res
    }

    /// Moves behind the payload that `header` declares, all of it or none.
    pub fn skip_message(&mut self, header: &MrtHeader) -> (res: Result<(), ParseError>)
        ensures
            final(self).input() == old(self).input(),
            has_bytes(old(self).input(), old(self).consumed(), header.length as int) ==> res is Ok
                && final(self).consumed() == old(self).consumed() + header.length,
            !has_bytes(old(self).input(), old(self).consumed(), header.length as int) ==> res
                == Err::<(), ParseError>(ParseError::UnexpectedEof) && final(self).consumed()
                == old(self).consumed(),
    {
        if available(self.data.as_slice(), self.pos, header.length as usize) {
            self.pos = self.pos + header.length as usize;
            Ok(())
        } else {
            Err(ParseError::UnexpectedEof)
        }
    }

    /// Decodes the payload that `header` declares with the decoder `M`,
    /// which has to accept the header's kind, and moves behind the payload.
    /// The decoder sees the declared bytes and no others. A payload that is
    /// cut short, or that the decoder refuses, consumes nothing.
    pub fn read_message<M: Message<M>>(&mut self, header: &MrtHeader) -> (res: Result<
        M,
        ParseError,
    >)
        requires
            M::accepts(header.typ),
        ensures
            final(self).input() == old(self).input(),
            match wire_bytes(old(self).input(), old(self).consumed(), header.length as int) {
                Ok(payload) => M::decodes(payload, *header, res),
                Err(e) => res == Err::<M, ParseError>(e),
            },
            final(self).consumed() == if res is Ok {
                old(self).consumed() + header.length
            } else {
                old(self).consumed()
            },
    {
        let length = header.length as usize;
        if !available(self.data.as_slice(), self.pos, length) {
            return Err(ParseError::UnexpectedEof);
        }
        let payload = slice_subrange(self.data.as_slice(), self.pos, self.pos + length);
        let res = M::parse(payload, header);
        if res.is_ok() {
            self.pos = self.pos + length;
        }
        res
    }
}

} // verus!
