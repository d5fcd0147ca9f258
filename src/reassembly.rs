use vstd::prelude::*;

use crate::codec::{
    decode_header, declared_payload_len, frame_fits, frame_payload, header_of, HEADER_LEN,
    LENGTH_OVERHEAD,
};
use crate::error::RconError;

verus! {

/// Capacity of the buffer that each transport read fills.
pub const READ_CAPACITY: usize = 4096;

/// Payload bytes that a read filling the whole buffer carries.
pub const FULL_READ_PAYLOAD: usize = 4084;

/// What the reassembler has gathered in the current response cycle.
pub ghost struct Gathered {
    pub payload: Seq<u8>,
    pub last_id: i32,
    pub last_kind: i32,
    pub complete: bool,
}

/// The error that one read ends the cycle with, if any.
pub open spec fn read_error(chunk: Seq<u8>) -> Option<RconError> {
    if chunk.len() == 0 {
        Some(RconError::ConnectionClosed)
    } else if chunk.len() < HEADER_LEN {
        Some(RconError::TruncatedHeader)
    } else if !frame_fits(chunk) {
        Some(RconError::MalformedHeader)
    } else {
        None
    }
}

/// A read ends the response when its payload did not fill the buffer.
pub open spec fn is_last_read(chunk: Seq<u8>) -> bool {
    declared_payload_len(chunk) < FULL_READ_PAYLOAD
}

/// The state after one read that carried no error.
pub open spec fn gather(g: Gathered, chunk: Seq<u8>) -> Gathered {
    Gathered {
        payload: g.payload + frame_payload(chunk),
        last_id: header_of(chunk).id,
        last_kind: header_of(chunk).kind,
        complete: is_last_read(chunk),
    }
}

/// The state at the start of a cycle.
pub open spec fn empty_gathered() -> Gathered {
    Gathered { payload: Seq::empty(), last_id: 0, last_kind: 0, complete: false }
}

/// The state after a run of reads, none of which carried an error.
pub open spec fn gather_all(g: Gathered, chunks: Seq<Seq<u8>>) -> Gathered
    decreases chunks.len(),
{
    if chunks.len() == 0 {
        g
    } else {
        gather(gather_all(g, chunks.drop_last()), chunks.last())
    }
}

/// The part of `t` that the read at position `i` carries when `t` is cut into
/// pieces that fill the read buffer.
pub open spec fn piece(t: Seq<u8>, i: int) -> Seq<u8> {
    let end = if (i + 1) * FULL_READ_PAYLOAD <= t.len() {
        (i + 1) * FULL_READ_PAYLOAD
    } else {
        t.len() as int
    };
    t.subrange(i * FULL_READ_PAYLOAD, end)
}

proof fn lemma_gather_prefix(t: Seq<u8>, chunks: Seq<Seq<u8>>, k: int)
    requires
        chunks.len() == (t.len() as int) / (FULL_READ_PAYLOAD as int) + 1,
        forall|i: int|
            0 <= i < chunks.len() ==> read_error(#[trigger] chunks[i]) is None && frame_payload(
                chunks[i],
            ) == piece(t, i),
        0 <= k <= chunks.len(),
    ensures
        gather_all(empty_gathered(), chunks.take(k)).payload == t.subrange(
            0,
            if k * FULL_READ_PAYLOAD <= t.len() {
                k * FULL_READ_PAYLOAD
            } else {
                t.len() as int
            },
        ),
        k > 0 ==> (gather_all(empty_gathered(), chunks.take(k)).complete <==> k == chunks.len()),
    decreases k,
{
    let f = FULL_READ_PAYLOAD as int;
    let n = chunks.len() as int;
    assert((t.len() as int) / f * f <= t.len() < ((t.len() as int) / f + 1) * f) by (nonlinear_arith)
        requires
            f == 4084,
    ;
    if k > 0 {
        lemma_gather_prefix(t, chunks, k - 1);
        assert(chunks.take(k).drop_last() =~= chunks.take(k - 1));
        let c = chunks[k - 1];
        assert(chunks.take(k).last() == c);
        assert(frame_payload(c) == piece(t, k - 1));
        assert((k - 1) * f + f == k * f);
        assert(k - 1 <= (t.len() as int) / f);
        assert((k - 1) * f <= (t.len() as int) / f * f) by (nonlinear_arith)
            requires
                k - 1 <= (t.len() as int) / f,
                f > 0,
        ;
        if k < n {
            assert(k <= (t.len() as int) / f);
            assert(k * f <= (t.len() as int) / f * f) by (nonlinear_arith)
                requires
                    k <= (t.len() as int) / f,
                    f > 0,
            ;
        } else {
            assert(k * f > t.len());
        }
        assert(frame_payload(c).len() == declared_payload_len(c));
        let prev = gather_all(empty_gathered(), chunks.take(k - 1)).payload;
        assert(prev + frame_payload(c) =~= t.subrange(
            0,
            if k * f <= t.len() {
                k * f
            } else {
                t.len() as int
            },
        ));
    } else {
        assert(t.subrange(0, 0) =~= Seq::<u8>::empty());
    }
}

/// A response cut into reads that fill the buffer, then one read that does not,
/// is gathered whole: the reassembler is not complete before the last read, is
/// complete after it, and holds the concatenated payloads. The number of reads
/// is the payload length divided by the payload of a full read, plus one.
pub proof fn lemma_fragmented_response(t: Seq<u8>, chunks: Seq<Seq<u8>>)
    requires
        chunks.len() == (t.len() as int) / (FULL_READ_PAYLOAD as int) + 1,
        forall|i: int|
            0 <= i < chunks.len() ==> read_error(#[trigger] chunks[i]) is None && frame_payload(
                chunks[i],
            ) == piece(t, i),
    ensures
        forall|k: int|
            0 < k < chunks.len() ==> !(#[trigger] gather_all(empty_gathered(), chunks.take(k))).complete,
        gather_all(empty_gathered(), chunks).complete,
        gather_all(empty_gathered(), chunks).payload == t,
{
    assert forall|k: int| 0 < k < chunks.len() implies !(#[trigger] gather_all(
        empty_gathered(),
        chunks.take(k),
    )).complete by {
        lemma_gather_prefix(t, chunks, k);
    }
    lemma_gather_prefix(t, chunks, chunks.len() as int);
    assert(chunks.take(chunks.len() as int) =~= chunks);
    assert(t.subrange(0, t.len() as int) =~= t);
}

/// A complete response: the payload length, id and type of the last read,
/// and the payload as text.
pub struct Response {
    pub length: usize,
    pub id: i32,
    pub kind: i32,
    pub text: String,
}

/// Text that a lossy UTF-8 decoding of `b` yields.
pub uninterp spec fn lossy_text(b: Seq<u8>) -> Seq<char>;

/// Relies on `String::from_utf8_lossy`: a function of the bytes alone, which
/// replaces invalid sequences and keeps valid UTF-8 as it is.
#[verifier::external_body]
fn decode_lossy(b: &[u8]) -> (r: String)
    ensures
        r@ == lossy_text(b@),
        vstd::utf8::valid_utf8(b@) ==> vstd::utf8::encode_utf8(r@) == b@,
{
    String::from_utf8_lossy(b).into_owned()
}

/// Accumulates the payloads of the reads of one response.
pub struct Reassembler {
    payload: Vec<u8>,
    last_id: i32,
    last_kind: i32,
    complete: bool,
}

impl View for Reassembler {
    type V = Gathered;

    closed spec fn view(&self) -> Gathered {
        Gathered {
            payload: self.payload@,
            last_id: self.last_id,
            last_kind: self.last_kind,
            complete: self.complete,
        }
    }
}

impl Reassembler {
    /// An empty reassembler.
    pub fn new() -> (r: Reassembler)
        ensures
            r@ == empty_gathered(),
    {
        Reassembler { payload: Vec::new(), last_id: 0, last_kind: 0, complete: false }
    }

    /// Starts a new response cycle.
    pub fn reset(&mut self)
        ensures
            final(self)@ == empty_gathered(),
    {
        self.payload.clear();
        self.last_id = 0;
        self.last_kind = 0;
        self.complete = false;
    }

    /// Whether the last read ended the response.
    pub fn is_complete(&self) -> (r: bool)
        ensures
            r == self@.complete,
    {
        self.complete
    }

    /// Takes in the bytes of one transport read, which start with a header.
    /// Returns whether the response is complete; on an error nothing changes.
    pub fn feed(&mut self, chunk: &[u8]) -> (r: Result<bool, RconError>)
        ensures
            match read_error(chunk@) {
                Some(e) => r == Err::<bool, RconError>(e) && final(self)@ == old(self)@,
                None => r == Ok::<bool, RconError>(is_last_read(chunk@)) && final(self)@ == gather(
                    old(self)@,
                    chunk@,
                ),
            },
    {
        if chunk.len() == 0 {
            return Err(RconError::ConnectionClosed);
        }
        if chunk.len() < HEADER_LEN {
            return Err(RconError::TruncatedHeader);
        }
        let header = match decode_header(chunk) {
            Ok(h) => h,
            Err(e) => return Err(e),
        };
        if header.length < LENGTH_OVERHEAD as i32 {
            return Err(RconError::MalformedHeader);
        }
        let payload_len = (header.length - LENGTH_OVERHEAD as i32) as usize;
        if payload_len > chunk.len() - HEADER_LEN {
            return Err(RconError::MalformedHeader);
        }
        let part = vstd::slice::slice_subrange(chunk, HEADER_LEN, HEADER_LEN + payload_len);
        self.payload.extend_from_slice(part);
        self.last_id = header.id;
        self.last_kind = header.kind;
        self.complete = payload_len < FULL_READ_PAYLOAD;
        assert(self.payload@ =~= old(self)@.payload + frame_payload(chunk@));
        Ok(self.complete)
    }

    /// The response gathered so far.
    pub fn response(&self) -> (r: Response)
        ensures
            r.length == self@.payload.len(),
            r.id == self@.last_id,
            r.kind == self@.last_kind,
            r.text@ == lossy_text(self@.payload),
    {
        Response {
            length: self.payload.len(),
            id: self.last_id,
            kind: self.last_kind,
            text: decode_lossy(self.payload.as_slice()),
        }
    }
}

} // verus!
