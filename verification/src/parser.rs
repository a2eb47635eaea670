//! The streaming frame parser: consumes arbitrary byte chunks, buffers
//! partial frames, locates sync markers, validates headers and checksums,
//! dispatches payloads to the field codec by class and id, and
//! resynchronizes after any failure by discarding a single buffered byte.
//!
//! `feed` only appends bytes; results are pulled by calling [`Parser::next`]
//! until it returns `None` ("wait for more input").  Messages are yielded
//! strictly in the order their frames appear in the byte stream.

use vstd::prelude::*;
use crate::checksum::{checksum_of, cksum_update};
use crate::codec::{
    FieldValue, FieldVal, views_of, decode_result, decode_fields, len_check, enum_error_from,
};
use crate::errors::{DecodeError, FeedError, ParseError};
use crate::frame::{SYNC_CHAR_1, SYNC_CHAR_2, declared_frame_len};
use crate::schema::{PacketSchema, DeclaredLen, schema_wf};

verus! {

/// One decoded message: the frame's class and id, and the payload's field
/// values in declaration order.
#[derive(Clone, Debug, PartialEq, Eq)]
pub struct Message {
    /// The frame's class byte.
    pub class: u8,
    /// The frame's id byte.
    pub id: u8,
    /// The decoded field values.
    pub values: Vec<FieldValue>,
}

/// The mathematical value of a decoded message.
pub struct MsgView {
    /// The frame's class byte.
    pub class: u8,
    /// The frame's id byte.
    pub id: u8,
    /// The decoded field values.
    pub values: Seq<FieldVal>,
}

impl View for Message {
    type V = MsgView;

    open spec fn view(&self) -> MsgView {
        MsgView { class: self.class, id: self.id, values: views_of(self.values@) }
    }
}

/// The streaming parser: the registered schemas, the unconsumed byte tail
/// carried across `feed` calls, and the optional buffer capacity.
pub struct Parser {
    /// The registered schemas, dispatched by class and id (first match).
    pub schemas: Vec<PacketSchema>,
    /// The unconsumed buffered bytes.
    pub buf: Vec<u8>,
    /// The buffer capacity; `None` is unbounded.
    pub capacity: Option<usize>,
}

/// A well-formed parser: every registered schema is well formed, and a
/// bounded buffer stays within its capacity.
pub open spec fn parser_wf(p: Parser) -> bool {
    &&& forall|i: int| 0 <= i < p.schemas@.len() ==> schema_wf(#[trigger] p.schemas@[i])
    &&& match p.capacity {
        Some(c) => p.buf@.len() <= c,
        None => true,
    }
}

/// The buffer with leading bytes that cannot start a frame removed: bytes
/// are dropped until the buffer is empty, or begins with the first sync
/// byte followed (if anything follows) by the second.
pub open spec fn drop_junk(buf: Seq<u8>) -> Seq<u8>
    decreases buf.len(),
{
    if buf.len() == 0 {
        buf
    } else if buf[0] == SYNC_CHAR_1 && (buf.len() == 1 || buf[1] == SYNC_CHAR_2) {
        buf
    } else {
        drop_junk(buf.skip(1))
    }
}

/// Junk dropping never grows the buffer.
pub proof fn lemma_drop_junk_len(buf: Seq<u8>)
    ensures
        drop_junk(buf).len() <= buf.len(),
    decreases buf.len(),
{
    if buf.len() > 0 && !(buf[0] == SYNC_CHAR_1 && (buf.len() == 1 || buf[1] == SYNC_CHAR_2)) {
        lemma_drop_junk_len(buf.skip(1));
    }
}

/// The first registered schema for a class and id, scanning from index `i`.
pub open spec fn lookup_from(schemas: Seq<PacketSchema>, class: u8, id: u8, i: int) -> Option<
    PacketSchema,
>
    decreases schemas.len() - i,
{
    if i < 0 || i >= schemas.len() {
        None
    } else if schemas[i].class == class && schemas[i].id == id {
        Some(schemas[i])
    } else {
        lookup_from(schemas, class, id, i + 1)
    }
}

/// The registered schema for a class and id, if any.
pub open spec fn lookup_schema(schemas: Seq<PacketSchema>, class: u8, id: u8) -> Option<
    PacketSchema,
> {
    lookup_from(schemas, class, id, 0)
}

/// Scanning from the front or from behind a matchless prefix finds the
/// same schema.
pub proof fn lemma_lookup_skip(schemas: Seq<PacketSchema>, class: u8, id: u8, i: int)
    requires
        0 <= i <= schemas.len(),
        forall|k: int|
            0 <= k < i ==> !(#[trigger] schemas[k].class == class && schemas[k].id == id),
    ensures
        lookup_schema(schemas, class, id) == lookup_from(schemas, class, id, i),
    decreases i,
{
    if i > 0 {
        lemma_lookup_skip(schemas, class, id, i - 1);
    }
}

/// One pull from the parser, as a mathematical function of the registered
/// schemas and the buffered bytes: the yielded item (`None` when more
/// bytes are needed) and the bytes that remain buffered.
///
/// After junk is dropped: an incomplete frame withholds a result; a
/// checksum mismatch, an unknown class/id or an inconsistent length
/// rejects the frame, discarding only the first buffered byte; a framed,
/// checksum-verified message consumes the whole frame and yields its
/// decoded values, or the payload's decode error.
pub open spec fn parse_step(schemas: Seq<PacketSchema>, buf: Seq<u8>) -> (Option<
    Result<MsgView, ParseError>,
>, Seq<u8>) {
    let s = drop_junk(buf);
    if s.len() < 8 {
        (None, s)
    } else {
        let len = declared_frame_len(s) as int;
        if s.len() < 8 + len {
            (None, s)
        } else {
            let ck = checksum_of(s.subrange(2, 6 + len));
            if s[6 + len] != ck.0 || s[7 + len] != ck.1 {
                (Some(Err(ParseError::ChecksumMismatch)), s.skip(1))
            } else {
                match lookup_schema(schemas, s[2], s[3]) {
                    None => (Some(Err(ParseError::UnknownMessage(s[2], s[3]))), s.skip(1)),
                    Some(sch) => {
                        let payload = s.subrange(6, 6 + len);
                        match len_check(sch, payload) {
                            Err(e) => (Some(Err(ParseError::Payload(e))), s.skip(1)),
                            Ok(_) => match decode_result(sch, payload) {
                                Err(e) => (Some(Err(ParseError::Payload(e))), s.skip(8 + len)),
                                Ok(vals) => (
                                    Some(
                                        Ok(MsgView { class: s[2], id: s[3], values: vals }),
                                    ),
                                    s.skip(8 + len),
                                ),
                            },
                        }
                    },
                }
            }
        }
    }
}


/// A pull never grows the buffer, and whenever it yields an item the
/// buffer strictly shrinks — so pulling repeatedly from any finite buffer
/// terminates, whatever the bytes.
pub proof fn lemma_parse_step_progress(schemas: Seq<PacketSchema>, buf: Seq<u8>)
    ensures
        parse_step(schemas, buf).1.len() <= buf.len(),
        parse_step(schemas, buf).0 is Some ==> parse_step(schemas, buf).1.len() < buf.len(),
{
    lemma_drop_junk_len(buf);
}

/// The mathematical values of a sequence of yielded items.
pub open spec fn items_views(items: Seq<Result<Message, ParseError>>) -> Seq<
    Result<MsgView, ParseError>,
> {
    items.map_values(
        |item: Result<Message, ParseError>|
            match item {
                Ok(msg) => Ok(msg@),
                Err(e) => Err(e),
            },
    )
}

/// Every item the buffered bytes currently yield, in stream order, and
/// the bytes that remain buffered afterwards: [`parse_step`] repeated
/// until it withholds a result.
pub open spec fn parse_run(schemas: Seq<PacketSchema>, buf: Seq<u8>) -> (Seq<
    Result<MsgView, ParseError>,
>, Seq<u8>)
    decreases buf.len(),
    via parse_run_decreases
{
    let step = parse_step(schemas, buf);
    match step.0 {
        None => (Seq::empty(), step.1),
        Some(item) => {
            let rest = parse_run(schemas, step.1);
            (seq![item] + rest.0, rest.1)
        },
    }
}

#[via_fn]
proof fn parse_run_decreases(schemas: Seq<PacketSchema>, buf: Seq<u8>) {
    lemma_parse_step_progress(schemas, buf);
}

/// Remove the first `k` bytes of a buffer.
fn drop_front(v: &mut Vec<u8>, k: usize)
    requires
        k <= old(v)@.len(),
    ensures
        final(v)@ == old(v)@.skip(k as int),
{
    let tail = v.split_off(k);
    *v = tail;
    proof {
        assert(v@ =~= old(v)@.skip(k as int));
    }
}

impl Parser {
    /// A parser over the given schema set with an unbounded buffer.
    pub fn new(schemas: Vec<PacketSchema>) -> (p: Parser)
        requires
            forall|i: int| 0 <= i < schemas@.len() ==> schema_wf(#[trigger] schemas@[i]),
        ensures
            p.schemas == schemas,
            p.buf@ == Seq::<u8>::empty(),
            p.capacity is None,
            parser_wf(p),
    {
        Parser { schemas, buf: Vec::new(), capacity: None }
    }

    /// A parser over the given schema set whose buffer holds at most
    /// `capacity` bytes.
    pub fn with_capacity(schemas: Vec<PacketSchema>, capacity: usize) -> (p: Parser)
        requires
            forall|i: int| 0 <= i < schemas@.len() ==> schema_wf(#[trigger] schemas@[i]),
        ensures
            p.schemas == schemas,
            p.buf@ == Seq::<u8>::empty(),
            p.capacity == Some(capacity),
            parser_wf(p),
    {
        Parser { schemas, buf: Vec::new(), capacity: Some(capacity) }
    }

    /// The number of bytes currently buffered.
    pub fn buffered(&self) -> (n: usize)
        ensures
            n == self.buf@.len(),
    {
        self.buf.len()
    }

    /// Append a chunk to the internal buffer.  On a bounded parser whose
    /// capacity the chunk would exceed, nothing is appended and the feed
    /// fails; otherwise every byte is appended, in order.
    pub fn feed(&mut self, bytes: &[u8]) -> (r: Result<(), FeedError>)
        requires
            parser_wf(*old(self)),
        ensures
            parser_wf(*final(self)),
            final(self).schemas == old(self).schemas,
            final(self).capacity == old(self).capacity,
            match r {
                Ok(u) => final(self).buf@ == old(self).buf@ + bytes@,
                Err(e) => {
                    &&& e == FeedError::BufferOverflow
                    &&& final(self).buf@ == old(self).buf@
                },
            },
            r is Ok <==> match old(self).capacity {
                Some(c) => old(self).buf@.len() + bytes@.len() <= c,
                None => true,
            },
    {
        if let Some(c) = self.capacity {
            if bytes.len() > c - self.buf.len() {
                return Err(FeedError::BufferOverflow);
            }
        }
        let mut i: usize = 0;
        while i < bytes.len()
            invariant
                i <= bytes@.len(),
                self.schemas == old(self).schemas,
                self.capacity == old(self).capacity,
                self.buf@ == old(self).buf@ + bytes@.subrange(0, i as int),
            decreases bytes@.len() - i,
        {
            self.buf.push(bytes[i]);
            proof {
                assert(old(self).buf@ + bytes@.subrange(0, i as int + 1)
                    =~= (old(self).buf@ + bytes@.subrange(0, i as int)).push(bytes@[i as int]));
            }
            i = i + 1;
        }
        proof {
            assert(bytes@.subrange(0, bytes@.len() as int) =~= bytes@);
        }
        Ok(())
    }

    /// The index of the first registered schema for a class and id.
    fn find_schema(&self, class: u8, id: u8) -> (r: Option<usize>)
        ensures
            match r {
                Some(ix) => {
                    &&& ix < self.schemas@.len()
                    &&& lookup_schema(self.schemas@, class, id) == Some(self.schemas@[ix as int])
                },
                None => lookup_schema(self.schemas@, class, id) is None,
            },
    {
        let mut i: usize = 0;
        while i < self.schemas.len()
            invariant
                i <= self.schemas@.len(),
                forall|k: int|
                    0 <= k < i ==> !(#[trigger] self.schemas@[k].class == class
                        && self.schemas@[k].id == id),
            decreases self.schemas@.len() - i,
        {
            let matches_here = {
                let s = &self.schemas[i];
                s.class == class && s.id == id
            };
            if matches_here {
                proof {
                    lemma_lookup_skip(self.schemas@, class, id, i as int);
                }
                return Some(i);
            }
            i = i + 1;
        }
        proof {
            lemma_lookup_skip(self.schemas@, class, id, self.schemas@.len() as int);
        }
        None
    }


    /// Pull until no complete frame remains: every item the buffered
    /// bytes currently yield, in stream order.  Further `feed` calls
    /// extend the stream; draining again then resumes where this left
    /// off.
    pub fn drain(&mut self) -> (items: Vec<Result<Message, ParseError>>)
        requires
            parser_wf(*old(self)),
        ensures
            parser_wf(*final(self)),
            final(self).schemas == old(self).schemas,
            final(self).capacity == old(self).capacity,
            items_views(items@) == parse_run(old(self).schemas@, old(self).buf@).0,
            final(self).buf@ == parse_run(old(self).schemas@, old(self).buf@).1,
    {
        let mut items: Vec<Result<Message, ParseError>> = Vec::new();
        proof {
            assert(items_views(items@) =~= Seq::<Result<MsgView, ParseError>>::empty());
        }
        loop
            invariant
                parser_wf(*self),
                self.schemas == old(self).schemas,
                self.capacity == old(self).capacity,
                parse_run(old(self).schemas@, old(self).buf@).0 == items_views(items@)
                    + parse_run(self.schemas@, self.buf@).0,
                parse_run(old(self).schemas@, old(self).buf@).1 == parse_run(
                    self.schemas@,
                    self.buf@,
                ).1,
            decreases self.buf@.len(),
        {
            let ghost pre_buf = self.buf@;
            let ghost pre_items = items@;
            proof {
                lemma_parse_step_progress(self.schemas@, self.buf@);
            }
            match self.next() {
                None => {
                    proof {
                        assert(parse_run(self.schemas@, pre_buf).0
                            =~= Seq::<Result<MsgView, ParseError>>::empty());
                        assert(items_views(pre_items) + parse_run(self.schemas@, pre_buf).0
                            =~= items_views(pre_items));
                    }
                    return items;
                },
                Some(item) => {
                    let ghost it_view = match &item {
                        Ok(msg) => Ok::<MsgView, ParseError>(msg@),
                        Err(e) => Err::<MsgView, ParseError>(*e),
                    };
                    items.push(item);
                    proof {
                        assert(parse_step(self.schemas@, pre_buf).0 == Some(it_view));
                        assert(items_views(items@) =~= items_views(pre_items).push(it_view));
                        assert(parse_run(self.schemas@, pre_buf).0 =~= seq![it_view]
                            + parse_run(self.schemas@, self.buf@).0);
                        assert(items_views(pre_items) + (seq![it_view]
                            + parse_run(self.schemas@, self.buf@).0)
                            =~= items_views(pre_items).push(it_view)
                                + parse_run(self.schemas@, self.buf@).0);
                    }
                },
            }
        }
    }

    /// Pull the next item from the buffered bytes: a decoded message, a
    /// categorized per-frame error (which also resynchronizes), or `None`
    /// when the buffer holds no complete frame yet.  Exactly
    /// [`parse_step`] of the schemas and the old buffer; whenever an item
    /// is yielded the buffer strictly shrinks, so iteration over a fixed
    /// buffer always terminates.
    pub fn next(&mut self) -> (r: Option<Result<Message, ParseError>>)
        requires
            parser_wf(*old(self)),
        ensures
            parser_wf(*final(self)),
            final(self).schemas == old(self).schemas,
            final(self).capacity == old(self).capacity,
            final(self).buf@ == parse_step(old(self).schemas@, old(self).buf@).1,
            match r {
                None => parse_step(old(self).schemas@, old(self).buf@).0 is None,
                Some(item) => match item {
                    Ok(msg) => parse_step(old(self).schemas@, old(self).buf@).0
                        == Some(Ok::<MsgView, ParseError>(msg@)),
                    Err(e) => parse_step(old(self).schemas@, old(self).buf@).0
                        == Some(Err::<MsgView, ParseError>(e)),
                },
            },
            r is Some ==> final(self).buf@.len() < old(self).buf@.len(),
            final(self).buf@.len() <= old(self).buf@.len(),
    {
        proof {
            lemma_drop_junk_len(old(self).buf@);
        }
        loop
            invariant
                parser_wf(*self),
                self.schemas == old(self).schemas,
                self.capacity == old(self).capacity,
                drop_junk(self.buf@) == drop_junk(old(self).buf@),
                self.buf@.len() <= old(self).buf@.len(),
            ensures
                parser_wf(*self),
                self.schemas == old(self).schemas,
                self.capacity == old(self).capacity,
                self.buf@.len() <= old(self).buf@.len(),
                self.buf@ == drop_junk(old(self).buf@),
                self.buf@.len() > 0,
                self.buf@[0] == SYNC_CHAR_1,
                self.buf@.len() == 1 || self.buf@[1] == SYNC_CHAR_2,
            decreases self.buf@.len(),
        {
            if self.buf.len() == 0 {
                proof {
                    assert(drop_junk(old(self).buf@) == self.buf@);
                    assert(parse_step(old(self).schemas@, old(self).buf@).1 == self.buf@);
                }
                return None;
            }
            let keep = self.buf[0] == SYNC_CHAR_1 && (self.buf.len() == 1 || self.buf[1]
                == SYNC_CHAR_2);
            if keep {
                break;
            }
            let ghost pre = self.buf@;
            self.buf.remove(0);
            proof {
                assert(self.buf@ =~= pre.skip(1));
            }
        }
        let ghost s = self.buf@;
        proof {
            assert(parse_step(old(self).schemas@, old(self).buf@).1
                == parse_step(old(self).schemas@, s).1);
        }
        if self.buf.len() < 8 {
            return None;
        }
        let len: usize = self.buf[4] as usize + 256 * (self.buf[5] as usize);
        proof {
            assert(declared_frame_len(s) == len);
        }
        if self.buf.len() - 8 < len {
            return None;
        }
        let core = vstd::slice::slice_subrange(self.buf.as_slice(), 2, 6 + len);
        let (ck_a, ck_b) = cksum_update(0, 0, core);
        proof {
            assert(core@ == s.subrange(2, 6 + len as int));
        }
        if self.buf[6 + len] != ck_a || self.buf[7 + len] != ck_b {
            self.buf.remove(0);
            proof {
                assert(self.buf@ =~= s.skip(1));
            }
            return Some(Err(ParseError::ChecksumMismatch));
        }
        let class = self.buf[2];
        let id = self.buf[3];
        match self.find_schema(class, id) {
            None => {
                self.buf.remove(0);
                proof {
                    assert(self.buf@ =~= s.skip(1));
                }
                Some(Err(ParseError::UnknownMessage(class, id)))
            },
            Some(ix) => {
                let ghost sch = self.schemas@[ix as int];
                let inconsistent: Option<DecodeError> = {
                    let schema = &self.schemas[ix];
                    let tw = schema.payload_width();
                    match schema.declared_len() {
                        DeclaredLen::Fixed(n) => if len < n as usize {
                            Some(DecodeError::PayloadTooShort)
                        } else if len > n as usize {
                            Some(DecodeError::PayloadLengthMismatch)
                        } else {
                            None
                        },
                        DeclaredLen::Max(n) => if len < tw {
                            Some(DecodeError::PayloadTooShort)
                        } else if len > n as usize {
                            Some(DecodeError::PayloadLengthMismatch)
                        } else {
                            None
                        },
                    }
                };
                proof {
                    assert(s.subrange(6, 6 + len as int).len() == len);
                    assert(match inconsistent {
                        Some(e) => len_check(sch, s.subrange(6, 6 + len as int))
                            == Err::<(), DecodeError>(e),
                        None => len_check(sch, s.subrange(6, 6 + len as int)) is Ok,
                    });
                }
                if let Some(e) = inconsistent {
                    self.buf.remove(0);
                    proof {
                        assert(self.buf@ =~= s.skip(1));
                    }
                    return Some(Err(ParseError::Payload(e)));
                }
                let decoded: Result<Vec<FieldValue>, DecodeError> = {
                    let schema = &self.schemas[ix];
                    let payload = vstd::slice::slice_subrange(self.buf.as_slice(), 6, 6 + len);
                    schema.decode(payload)
                };
                drop_front(&mut self.buf, 8 + len);
                proof {
                    assert(self.buf@ == s.skip(8 + len as int));
                }
                match decoded {
                    Ok(vals) => Some(Ok(Message { class, id, values: vals })),
                    Err(e) => Some(Err(ParseError::Payload(e))),
                }
            },
        }
    }
}

/// Whether a frame built from this class, id and payload will be accepted
/// by a parser over `schemas`: a schema is registered for the class and
/// id, the payload length agrees with its declared length, and no strict
/// enum-mapped field holds an invalid raw value.
pub open spec fn good_frame(schemas: Seq<PacketSchema>, class: u8, id: u8, payload: Seq<u8>) -> bool {
    &&& payload.len() <= 0xFFFF
    &&& match lookup_schema(schemas, class, id) {
        Some(sch) => len_check(sch, payload) is Ok && enum_error_from(sch.fields@, payload, 0)
            is None,
        None => false,
    }
}

/// A pull on a buffer that begins with an acceptable frame yields exactly
/// that frame's decoded message and leaves exactly the trailing bytes —
/// whatever they are.
pub proof fn lemma_parse_step_good_frame(
    schemas: Seq<PacketSchema>,
    class: u8,
    id: u8,
    payload: Seq<u8>,
    rest: Seq<u8>,
)
    requires
        good_frame(schemas, class, id, payload),
    ensures
        ({
            let sch = lookup_schema(schemas, class, id)->Some_0;
            parse_step(schemas, crate::frame::frame_bytes(class, id, payload) + rest) == (
                Some(
                    Ok::<MsgView, ParseError>(
                        MsgView { class, id, values: decode_fields(sch.fields@, payload) },
                    ),
                ),
                rest,
            )
        }),
{
    let f = crate::frame::frame_bytes(class, id, payload);
    let b = f + rest;
    let plen = payload.len() as int;
    crate::frame::lemma_frame_structure(class, id, payload);
    assert(b.len() == f.len() + rest.len());
    assert(forall|i: int| 0 <= i < f.len() ==> b[i] == f[i]);
    assert(b[0] == SYNC_CHAR_1 && b[1] == SYNC_CHAR_2);
    assert(drop_junk(b) == b);
    assert(declared_frame_len(b) == plen) by {
        assert(b[4] == payload.len() % 256);
        assert(b[5] == payload.len() / 256);
    }
    let ci = crate::checksum::checksum_input(class, id, payload);
    assert(b.subrange(2, 6 + plen) =~= ci);
    assert(b[6 + plen] == checksum_of(ci).0);
    assert(b[7 + plen] == checksum_of(ci).1);
    let sch = lookup_schema(schemas, class, id)->Some_0;
    assert(b.subrange(6, 6 + plen) =~= payload);
    assert(b.skip(8 + plen) =~= rest);
}

/// Resynchronization: two acceptable frames separated by one corrupted
/// byte are both recovered, in order.  The first pull yields the first
/// frame's message and leaves the corrupted byte and the second frame;
/// the second pull discards the corrupted byte while seeking sync and
/// yields the second frame's message, emptying the buffer.  A single
/// corrupted byte never loses the frame that follows it.
pub proof fn lemma_resynchronization(
    schemas: Seq<PacketSchema>,
    class1: u8,
    id1: u8,
    payload1: Seq<u8>,
    junk: u8,
    class2: u8,
    id2: u8,
    payload2: Seq<u8>,
)
    requires
        good_frame(schemas, class1, id1, payload1),
        good_frame(schemas, class2, id2, payload2),
    ensures
        ({
            let f1 = crate::frame::frame_bytes(class1, id1, payload1);
            let f2 = crate::frame::frame_bytes(class2, id2, payload2);
            let sch1 = lookup_schema(schemas, class1, id1)->Some_0;
            let sch2 = lookup_schema(schemas, class2, id2)->Some_0;
            let step1 = parse_step(schemas, f1 + seq![junk] + f2);
            let step2 = parse_step(schemas, step1.1);
            &&& step1.0 == Some(
                Ok::<MsgView, ParseError>(
                    MsgView { class: class1, id: id1, values: decode_fields(sch1.fields@, payload1) },
                ),
            )
            &&& step1.1 == seq![junk] + f2
            &&& step2.0 == Some(
                Ok::<MsgView, ParseError>(
                    MsgView { class: class2, id: id2, values: decode_fields(sch2.fields@, payload2) },
                ),
            )
            &&& step2.1 == Seq::<u8>::empty()
            &&& parse_run(schemas, f1 + seq![junk] + f2).0 == seq![
                Ok::<MsgView, ParseError>(
                    MsgView {
                        class: class1,
                        id: id1,
                        values: decode_fields(sch1.fields@, payload1),
                    },
                ),
                Ok::<MsgView, ParseError>(
                    MsgView {
                        class: class2,
                        id: id2,
                        values: decode_fields(sch2.fields@, payload2),
                    },
                ),
            ]
            &&& parse_run(schemas, f1 + seq![junk] + f2).1 == Seq::<u8>::empty()
        }),
{
    let f1 = crate::frame::frame_bytes(class1, id1, payload1);
    let f2 = crate::frame::frame_bytes(class2, id2, payload2);
    let rest = seq![junk] + f2;
    crate::frame::lemma_frame_structure(class1, id1, payload1);
    crate::frame::lemma_frame_structure(class2, id2, payload2);
    assert(f1 + seq![junk] + f2 =~= f1 + rest);
    lemma_parse_step_good_frame(schemas, class1, id1, payload1, rest);

    // The second pull: the corrupted byte is junk, whatever its value,
    // because the byte after it is the first sync byte, not the second.
    assert(rest[0] == junk && rest[1] == f2[0] && f2[0] == SYNC_CHAR_1);
    assert(rest.len() >= 2);
    assert(!(rest[0] == SYNC_CHAR_1 && (rest.len() == 1 || rest[1] == SYNC_CHAR_2)));
    assert(rest.skip(1) =~= f2);
    assert(drop_junk(rest) == drop_junk(f2));
    assert(f2[1] == SYNC_CHAR_2);
    assert(drop_junk(f2) == f2);
    lemma_parse_step_good_frame(schemas, class2, id2, payload2, Seq::<u8>::empty());
    assert(f2 + Seq::<u8>::empty() =~= f2);
    lemma_parse_step_on_junk_prefix(schemas, rest, f2);

    let sch1 = lookup_schema(schemas, class1, id1)->Some_0;
    let sch2 = lookup_schema(schemas, class2, id2)->Some_0;
    let m1 = Ok::<MsgView, ParseError>(
        MsgView { class: class1, id: id1, values: decode_fields(sch1.fields@, payload1) },
    );
    let m2 = Ok::<MsgView, ParseError>(
        MsgView { class: class2, id: id2, values: decode_fields(sch2.fields@, payload2) },
    );
    let empty = Seq::<u8>::empty();
    assert(parse_step(schemas, empty).0 is None);
    assert(parse_run(schemas, empty).0 =~= Seq::<Result<MsgView, ParseError>>::empty());
    assert(parse_run(schemas, empty).1 =~= empty);
    assert(parse_step(schemas, rest).1 == empty);
    assert(parse_run(schemas, rest).0 =~= seq![m2]);
    assert(parse_run(schemas, rest).1 == empty);
    assert(parse_run(schemas, f1 + seq![junk] + f2) == parse_run(schemas, f1 + rest));
    assert(parse_step(schemas, f1 + rest).0 == Some(m1));
    assert(parse_step(schemas, f1 + rest).1 == rest);
    assert(parse_run(schemas, f1 + rest).0 =~= seq![m1] + parse_run(schemas, rest).0);
    assert(seq![m1] + seq![m2] =~= seq![m1, m2]);
    assert(parse_run(schemas, f1 + rest).0 =~= seq![m1, m2]);
}

/// Pulling from a buffer and from the same buffer with its junk prefix
/// already dropped yields the same outcome.
pub proof fn lemma_parse_step_on_junk_prefix(
    schemas: Seq<PacketSchema>,
    buf: Seq<u8>,
    stripped: Seq<u8>,
)
    requires
        drop_junk(buf) == drop_junk(stripped),
    ensures
        parse_step(schemas, buf) == parse_step(schemas, stripped),
{
}

} // verus!
