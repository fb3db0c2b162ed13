//! Taking the fields of a record out of its bytes, one after the other.
//!
//! A cursor remembers the first thing that went wrong. From then on every field comes out empty, so
//! that it is enough to look at the cursor once, after the last field.

use crate::codec::{le_u16, le_u32, le_u64, read_u16, read_u32, read_u64, utf8_error};
use crate::error::{ErrorView, McapError, ParseError};
use crate::records::{text_pairs, Text, TextPairs};
use vstd::prelude::*;
use vstd::utf8::{decode_utf8, valid_utf8};

verus! {

/// A [`Cursor`] as specifications see it.
#[verifier::ext_equal]
pub struct Cur {
    pub bytes: Seq<u8>,
    /// Where the next field starts.
    pub at: int,
    /// The first thing that went wrong.
    pub err: Option<ErrorView>,
}

impl Cur {
    pub open spec fn start(bytes: Seq<u8>) -> Cur {
        Cur { bytes, at: 0, err: None }
    }

    pub open spec fn wf(self) -> bool {
        0 <= self.at <= self.bytes.len() <= usize::MAX
    }

    pub open spec fn left(self) -> int {
        self.bytes.len() - self.at
    }

    pub open spec fn fail(self, err: ErrorView) -> Cur {
        Cur { err: Some(err), ..self }
    }

    /// The next `n` bytes.
    pub open spec fn take(self, n: int) -> (Seq<u8>, Cur) {
        if self.err is Some {
            (seq![], self)
        } else if n > self.left() {
            (seq![], self.fail(ErrorView::UnexpectedEnd { pos: self.at as u64 }))
        } else {
            (self.bytes.subrange(self.at, self.at + n), Cur { at: self.at + n, ..self })
        }
    }

    /// All the bytes that are left.
    pub open spec fn rest(self) -> (Seq<u8>, Cur) {
        self.take(self.left())
    }

    pub open spec fn u8(self) -> (u8, Cur) {
        let (bytes, next) = self.take(1);
        (if bytes.len() == 0 { 0 } else { bytes[0] }, next)
    }

    pub open spec fn u16(self) -> (u16, Cur) {
        let (bytes, next) = self.take(2);
        (le_u16(bytes), next)
    }

    pub open spec fn u32(self) -> (u32, Cur) {
        let (bytes, next) = self.take(4);
        (le_u32(bytes), next)
    }

    pub open spec fn u64(self) -> (u64, Cur) {
        let (bytes, next) = self.take(8);
        (le_u64(bytes), next)
    }

    /// A text: the number of its bytes in four bytes, and then the bytes, in UTF-8.
    pub open spec fn text(self) -> (Text, Cur) {
        let (len, start) = self.u32();
        let (bytes, next) = start.take(len as int);
        if valid_utf8(bytes) {
            (decode_utf8(bytes), next)
        } else {
            let err = ErrorView::Utf8 { pos: start.at as u64, err: utf8_error(bytes) };
            (seq![], next.fail(err))
        }
    }

    /// The bytes of a list, as a cursor of its own: their number in four bytes, and then the bytes.
    /// The second cursor is behind the list.
    pub open spec fn list(self) -> (Cur, Cur) {
        let (len, start) = self.u32();
        let (_, next) = start.take(len as int);
        (Cur { bytes: self.bytes.take(next.at), at: start.at, err: next.err }, next)
    }

    /// The cursor behind a list, after `entries` has gone through the list.
    pub open spec fn after_list(self, entries: Cur) -> Cur {
        Cur { err: entries.err, ..self }
    }

    /// Two texts at a time, to the end.
    pub open spec fn all_text_pairs(self) -> (TextPairs, Cur)
        decreases self.left(),
    {
        let (key, middle) = self.text();
        let (value, next) = middle.text();
        if self.err is Some || self.left() <= 0 {
            (seq![], self)
        } else if next.err is Some || next.left() >= self.left() || next.left() < 0 {
            (seq![], next)
        } else {
            let (others, end) = next.all_text_pairs();
            (seq![(key, value)] + others, end)
        }
    }

    /// A two-byte and an eight-byte number at a time, to the end.
    pub open spec fn all_by_channel(self) -> (Seq<(u16, u64)>, Cur)
        decreases self.left(),
    {
        let (key, middle) = self.u16();
        let (value, next) = middle.u64();
        if self.err is Some || self.left() <= 0 {
            (seq![], self)
        } else if next.err is Some || next.left() >= self.left() || next.left() < 0 {
            (seq![], next)
        } else {
            let (others, end) = next.all_by_channel();
            (seq![(key, value)] + others, end)
        }
    }

    /// Two eight-byte numbers at a time, to the end.
    pub open spec fn all_index_entries(self) -> (Seq<(u64, u64)>, Cur)
        decreases self.left(),
    {
        let (time, middle) = self.u64();
        let (offset, next) = middle.u64();
        if self.err is Some || self.left() <= 0 {
            (seq![], self)
        } else if next.err is Some || next.left() >= self.left() || next.left() < 0 {
            (seq![], next)
        } else {
            let (others, end) = next.all_index_entries();
            (seq![(time, offset)] + others, end)
        }
    }

    /// A list of texts by texts.
    pub open spec fn text_pairs(self) -> (TextPairs, Cur) {
        let (list, next) = self.list();
        let (pairs, end) = list.all_text_pairs();
        (pairs, next.after_list(end))
    }

    /// A list of numbers by the id of a channel.
    pub open spec fn by_channel(self) -> (Seq<(u16, u64)>, Cur) {
        let (list, next) = self.list();
        let (pairs, end) = list.all_by_channel();
        (pairs, next.after_list(end))
    }

    /// A list of times and offsets.
    pub open spec fn index_entries(self) -> (Seq<(u64, u64)>, Cur) {
        let (list, next) = self.list();
        let (pairs, end) = list.all_index_entries();
        (pairs, next.after_list(end))
    }
}

pub(crate) struct Cursor<'a> {
    bytes: &'a [u8],
    at: usize,
    err: Option<McapError>,
}

impl<'a> View for Cursor<'a> {
    type V = Cur;

    closed spec fn view(&self) -> Cur {
        Cur {
            bytes: self.bytes@,
            at: self.at as int,
            err: match self.err {
                Some(err) => Some(err@),
                None => None,
            },
        }
    }
}

impl<'a> Cursor<'a> {
    pub(crate) fn start(bytes: &'a [u8]) -> (cursor: Self)
        ensures
            cursor@ == Cur::start(bytes@),
            cursor@.wf(),
    {
        assert(bytes.len() <= usize::MAX);
        Cursor { bytes, at: 0, err: None }
    }

    /// What went wrong, if anything did.
    pub(crate) fn finish(self) -> (err: Option<McapError>)
        ensures
            match err {
                Some(err) => self@.err == Some(err@),
                None => self@.err is None,
            },
    {
        self.err
    }

    pub(crate) fn fail(&mut self, err: McapError)
        requires
            old(self)@.wf(),
        ensures
            final(self)@ == old(self)@.fail(err@),
            final(self)@.wf(),
    {
        self.err = Some(err);
    }

    pub(crate) fn failed(&self) -> (failed: bool)
        ensures
            failed == (self@.err is Some),
    {
        self.err.is_some()
    }

    pub(crate) fn left(&self) -> (left: u64)
        requires
            self@.wf(),
        ensures
            left == self@.left(),
    {
        (self.bytes.len() - self.at) as u64
    }

    pub(crate) fn take(&mut self, n: u64) -> (bytes: &'a [u8])
        requires
            old(self)@.wf(),
        ensures
            (bytes@, final(self)@) == old(self)@.take(n as int),
            final(self)@.wf(),
    {
        if self.failed() {
            let none = &self.bytes[0..0];
            assert(none@ =~= seq![]);
            return none;
        }
        if n > self.left() {
            self.err = Some(McapError::Parse(ParseError::UnexpectedEnd { pos: self.at as u64 }));
            let none = &self.bytes[0..0];
            assert(none@ =~= seq![]);
            return none;
        }
        let from = self.at;
        self.at = from + n as usize;
        &self.bytes[from..self.at]
    }

    pub(crate) fn rest(&mut self) -> (bytes: &'a [u8])
        requires
            old(self)@.wf(),
        ensures
            (bytes@, final(self)@) == old(self)@.rest(),
            final(self)@.wf(),
    {
        let n = self.left();
        self.take(n)
    }

    pub(crate) fn u8(&mut self) -> (value: u8)
        requires
            old(self)@.wf(),
        ensures
            (value, final(self)@) == old(self)@.u8(),
            final(self)@.wf(),
    {
        let bytes = self.take(1);
        if bytes.len() == 0 {
            0
        } else {
            bytes[0]
        }
    }

    pub(crate) fn u16(&mut self) -> (value: u16)
        requires
            old(self)@.wf(),
        ensures
            (value, final(self)@) == old(self)@.u16(),
            final(self)@.wf(),
    {
        let bytes = self.take(2);
        if bytes.len() < 2 {
            return 0;
        }
        assert(bytes@.take(2) =~= bytes@);
        read_u16(bytes)
    }

    pub(crate) fn u32(&mut self) -> (value: u32)
        requires
            old(self)@.wf(),
        ensures
            (value, final(self)@) == old(self)@.u32(),
            final(self)@.wf(),
    {
        let bytes = self.take(4);
        if bytes.len() < 4 {
            return 0;
        }
        assert(bytes@.take(4) =~= bytes@);
        read_u32(bytes)
    }

    pub(crate) fn u64(&mut self) -> (value: u64)
        requires
            old(self)@.wf(),
        ensures
            (value, final(self)@) == old(self)@.u64(),
            final(self)@.wf(),
    {
        let bytes = self.take(8);
        if bytes.len() < 8 {
            return 0;
        }
        assert(bytes@.take(8) =~= bytes@);
        read_u64(bytes)
    }

    pub(crate) fn text(&mut self) -> (text: String)
        requires
            old(self)@.wf(),
        ensures
            (text@, final(self)@) == old(self)@.text(),
            final(self)@.wf(),
    {
        let len = self.u32();
        let pos = self.at as u64;
        let bytes = self.take(len as u64);
        match core::str::from_utf8(bytes) {
            Ok(text) => text.to_owned(),
            Err(err) => {
                self.err = Some(McapError::Parse(ParseError::Utf8 { pos, err }));
                String::new()
            },
        }
    }

    fn list(&mut self) -> (list: Cursor<'a>)
        requires
            old(self)@.wf(),
        ensures
            ({
                let (entries, next) = old(self)@.list();
                &&& list@.bytes == entries.bytes
                &&& list@.at == entries.at
                &&& list@.err is None
                &&& entries.err is None <==> final(self)@.err is None
                &&& final(self)@ == next
            }),
            list@.wf(),
            final(self)@.wf(),
    {
        let len = self.u32();
        let from = self.at;
        self.take(len as u64);
        let bytes = &self.bytes[0..self.at];
        assert(bytes@ =~= old(self)@.bytes.take(self.at as int));
        Cursor { bytes, at: from, err: None }
    }

    /// A list of texts by texts.
    pub(crate) fn text_pairs(&mut self) -> (pairs: Vec<(String, String)>)
        requires
            old(self)@.wf(),
        ensures
            (text_pairs(pairs), final(self)@) == old(self)@.text_pairs(),
            final(self)@.wf(),
    {
        let mut list = self.list();
        let mut pairs: Vec<(String, String)> = Vec::new();
        assert(text_pairs(pairs) =~= seq![]);
        if self.failed() {
            return pairs;
        }
        let ghost start = list@;
        assert(text_pairs(pairs) + start.all_text_pairs().0 =~= start.all_text_pairs().0);
        while list.left() > 0 && !list.failed()
            invariant
                list@.wf(),
                start.all_text_pairs().0 == text_pairs(pairs) + list@.all_text_pairs().0,
                start.all_text_pairs().1 == list@.all_text_pairs().1,
            ensures
                list@.wf(),
                start.all_text_pairs() == (text_pairs(pairs), list@),
            decreases list@.left(),
        {
            let ghost before = list@;
            let ghost done = text_pairs(pairs);
            let key = list.text();
            let value = list.text();
            if list.failed() {
                assert(done + before.all_text_pairs().0 =~= done);
                break;
            }
            pairs.push((key, value));
            assert(text_pairs(pairs) =~= done.push((key@, value@)));
            assert(start.all_text_pairs().0 =~= text_pairs(pairs) + list@.all_text_pairs().0);
        }
        self.err = list.finish();
        pairs
    }

    /// A list of numbers by the id of a channel.
    pub(crate) fn by_channel(&mut self) -> (pairs: Vec<(u16, u64)>)
        requires
            old(self)@.wf(),
        ensures
            (pairs@, final(self)@) == old(self)@.by_channel(),
            final(self)@.wf(),
    {
        let mut list = self.list();
        let mut pairs: Vec<(u16, u64)> = Vec::new();
        assert(pairs@ =~= seq![]);
        if self.failed() {
            return pairs;
        }
        let ghost start = list@;
        assert(pairs@ + start.all_by_channel().0 =~= start.all_by_channel().0);
        while list.left() > 0 && !list.failed()
            invariant
                list@.wf(),
                start.all_by_channel().0 == pairs@ + list@.all_by_channel().0,
                start.all_by_channel().1 == list@.all_by_channel().1,
            ensures
                list@.wf(),
                start.all_by_channel() == (pairs@, list@),
            decreases list@.left(),
        {
            let ghost before = list@;
            let ghost done = pairs@;
            let key = list.u16();
            let value = list.u64();
            if list.failed() {
                assert(done + before.all_by_channel().0 =~= done);
                break;
            }
            pairs.push((key, value));
            assert(pairs@ =~= done.push((key, value)));
            assert(start.all_by_channel().0 =~= pairs@ + list@.all_by_channel().0);
        }
        self.err = list.finish();
        pairs
    }

    /// A list of times and offsets.
    pub(crate) fn index_entries(&mut self) -> (pairs: Vec<(u64, u64)>)
        requires
            old(self)@.wf(),
        ensures
            (pairs@, final(self)@) == old(self)@.index_entries(),
            final(self)@.wf(),
    {
        let mut list = self.list();
        let mut pairs: Vec<(u64, u64)> = Vec::new();
        assert(pairs@ =~= seq![]);
        if self.failed() {
            return pairs;
        }
        let ghost start = list@;
        assert(pairs@ + start.all_index_entries().0 =~= start.all_index_entries().0);
        while list.left() > 0 && !list.failed()
            invariant
                list@.wf(),
                start.all_index_entries().0 == pairs@ + list@.all_index_entries().0,
                start.all_index_entries().1 == list@.all_index_entries().1,
            ensures
                list@.wf(),
                start.all_index_entries() == (pairs@, list@),
            decreases list@.left(),
        {
            let ghost before = list@;
            let ghost done = pairs@;
            let time = list.u64();
            let offset = list.u64();
            if list.failed() {
                assert(done + before.all_index_entries().0 =~= done);
                break;
            }
            pairs.push((time, offset));
            assert(pairs@ =~= done.push((time, offset)));
            assert(start.all_index_entries().0 =~= pairs@ + list@.all_index_entries().0);
        }
        self.err = list.finish();
        pairs
    }
}

} // verus!
