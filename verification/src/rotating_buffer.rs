//! Per-connection reassembly buffer: turns a raw byte stream into complete
//! frames, retaining partial tails across reads.
//!
//! The buffer's view is the sequence of unconsumed bytes. `feed` appends a
//! read's bytes; `next_frame` extracts the first complete frame, if one is
//! present, and keeps the tail. Consumed bytes are compacted away (shifted
//! to the front) once they pass half of the buffer, so the buffer never
//! grows past twice the unconsumed data plus one read. No byte is ever
//! duplicated or dropped across feed / next_frame cycles.

use vstd::prelude::*;
use crate::codec::{
    MAX_FRAME_LENGTH, copy_range, lemma_encode_args_len, lemma_frames_round_trip,
    lemma_request_round_trip, read_u32_le, spec_declared_len, spec_decode_request,
    spec_encode_frames, spec_encode_request, spec_frame_payload, spec_frame_too_large,
    spec_frames_of, spec_has_frame, valid_request,
};
use crate::errors::ProtocolError;
use crate::protocol::RequestModel;

verus! {

/// Unconsumed tail of a byte stream after every complete frame at its
/// front has been extracted.
pub open spec fn spec_frames_rest(b: Seq<u8>) -> Seq<u8>
    decreases b.len(),
{
    if spec_has_frame(b) {
        spec_frames_rest(b.skip(4 + spec_declared_len(b)))
    } else {
        b
    }
}

pub struct RotatingBuffer {
    buf: Vec<u8>,
    start: usize,
}

impl View for RotatingBuffer {
    type V = Seq<u8>;

    /// The unconsumed bytes: everything fed and not yet extracted.
    closed spec fn view(&self) -> Seq<u8> {
        self.buf@.skip(self.start as int)
    }
}

impl RotatingBuffer {
    /// The consumed prefix never runs past the end of the storage.
    pub closed spec fn well_formed(&self) -> bool {
        self.start <= self.buf@.len()
    }

    /// An empty buffer.
    pub fn new() -> (r: RotatingBuffer)
        ensures
            r.well_formed(),
            r@ == Seq::<u8>::empty(),
    {
        let r = RotatingBuffer { buf: Vec::new(), start: 0 };
        assert(r@ =~= Seq::<u8>::empty());
        r
    }

    /// Appends one read's bytes to the unconsumed tail.
    pub fn feed(&mut self, bytes: &Vec<u8>)
        requires
            old(self).well_formed(),
        ensures
            final(self).well_formed(),
            final(self)@ == old(self)@ + bytes@,
    {
        crate::codec::push_bytes(&mut self.buf, bytes);
        assert(self@ =~= old(self)@ + bytes@);
    }

    /// Shifts the unconsumed bytes to the front, releasing the consumed
    /// prefix. The view is unchanged.
    fn compact(&mut self)
        requires
            old(self).well_formed(),
        ensures
            final(self).well_formed(),
            final(self)@ == old(self)@,
    {
        let tail = copy_range(&self.buf, self.start, self.buf.len());
        assert(tail@ =~= old(self)@);
        self.buf = tail;
        self.start = 0;
        assert(self@ =~= old(self)@);
    }

    /// Extracts the first complete frame's payload, if one whole frame has
    /// arrived. Returns nothing when the bytes so far end inside a header
    /// or inside a declared payload; fails when the declared length
    /// exceeds the configured maximum, which is connection-fatal.
    pub fn next_frame(&mut self) -> (r: Result<Option<Vec<u8>>, ProtocolError>)
        requires
            old(self).well_formed(),
        ensures
            final(self).well_formed(),
            match r {
                Ok(Some(payload)) => spec_has_frame(old(self)@) && payload@
                    == spec_frame_payload(old(self)@) && final(self)@ == old(self)@.skip(
                    4 + spec_declared_len(old(self)@),
                ),
                Ok(None) => !spec_has_frame(old(self)@) && !spec_frame_too_large(old(self)@)
                    && final(self)@ == old(self)@,
                Err(e) => e == ProtocolError::FrameTooLarge && spec_frame_too_large(old(self)@)
                    && final(self)@ == old(self)@,
            },
    {
        let ghost b = self@;
        let avail = self.buf.len() - self.start;
        if avail < 4 {
            return Ok(None);
        }
        let n32 = read_u32_le(&self.buf, self.start);
        assert(b[0] == self.buf@[self.start as int] && b[1] == self.buf@[self.start + 1] && b[2]
            == self.buf@[self.start + 2] && b[3] == self.buf@[self.start + 3]);
        assert(n32 as int == spec_declared_len(b));
        if n32 > MAX_FRAME_LENGTH {
            return Err(ProtocolError::FrameTooLarge);
        }
        let n = n32 as usize;
        if avail - 4 < n {
            return Ok(None);
        }
        let payload = copy_range(&self.buf, self.start + 4, self.start + 4 + n);
        assert(payload@ =~= spec_frame_payload(b));
        self.start = self.start + 4 + n;
        assert(self@ =~= b.skip(4 + spec_declared_len(b)));
        if self.start > self.buf.len() / 2 {
            self.compact();
        }
        Ok(Some(payload))
    }

    /// Extracts every complete frame that has arrived, in order. The tail
    /// that remains is exactly the bytes after the last complete frame.
    /// Fails, connection-fatally, when a frame's declared length exceeds
    /// the configured maximum.
    pub fn drain_frames(&mut self) -> (r: Result<Vec<Vec<u8>>, ProtocolError>)
        requires
            old(self).well_formed(),
        ensures
            final(self).well_formed(),
            final(self)@ == spec_frames_rest(old(self)@),
            match r {
                Ok(frames) => frames.deep_view() == spec_frames_of(old(self)@)
                    && !spec_frame_too_large(spec_frames_rest(old(self)@)),
                Err(e) => e == ProtocolError::FrameTooLarge && spec_frame_too_large(
                    spec_frames_rest(old(self)@),
                ),
            },
    {
        let mut frames: Vec<Vec<u8>> = Vec::new();
        loop
            invariant
                self.well_formed(),
                spec_frames_of(old(self)@) == frames.deep_view() + spec_frames_of(self@),
                spec_frames_rest(old(self)@) == spec_frames_rest(self@),
            decreases self@.len(),
        {
            let ghost b = self@;
            let ghost taken = frames.deep_view();
            match self.next_frame() {
                Ok(Some(payload)) => {
                    let ghost pre = frames@;
                    frames.push(payload);
                    proof {
                        crate::codec::lemma_bytes_deep_view(payload);
                        assert forall|k: int| 0 <= k < frames@.len() implies frames.deep_view()[k]
                            == taken.push(payload@)[k] by {
                            if k < frames@.len() - 1 {
                                assert(frames@[k] == pre[k]);
                            } else {
                                assert(frames@[k] == payload);
                            }
                        }
                        assert(frames.deep_view() =~= taken.push(payload@));
                        assert(spec_frames_of(b) == seq![payload@] + spec_frames_of(self@));
                        assert(taken + spec_frames_of(b) =~= frames.deep_view() + spec_frames_of(
                            self@,
                        ));
                    }
                },
                Ok(None) => {
                    proof {
                        assert(spec_frames_of(self@) =~= Seq::<Seq<u8>>::empty());
                        assert(frames.deep_view() + spec_frames_of(self@) =~= frames.deep_view());
                    }
                    return Ok(frames);
                },
                Err(e) => {
                    return Err(e);
                },
            }
        }
    }
}

/// The framed encodings of a sequence of requests, one frame each.
pub open spec fn spec_request_payloads(requests: Seq<RequestModel>) -> Seq<Seq<u8>> {
    requests.map_values(|r: RequestModel| spec_encode_request(r))
}

/// End to end over a whole stream: the concatenated frames of any
/// sequence of valid requests, however the bytes were split when they
/// arrived, reassemble into exactly one frame per request, in order, and
/// each decodes back to its request.
pub proof fn lemma_request_stream_round_trip(requests: Seq<RequestModel>)
    requires
        forall|i: int| 0 <= i < requests.len() ==> valid_request(#[trigger] requests[i]),
    ensures
        spec_frames_of(spec_encode_frames(spec_request_payloads(requests)))
            == spec_request_payloads(requests),
        spec_request_payloads(requests).len() == requests.len(),
        forall|i: int|
            0 <= i < requests.len() ==> spec_decode_request(
                #[trigger] spec_request_payloads(requests)[i],
            ) == Some(requests[i]),
{
    let payloads = spec_request_payloads(requests);
    assert forall|i: int| 0 <= i < payloads.len() implies #[trigger] payloads[i].len()
        <= MAX_FRAME_LENGTH by {
        lemma_encode_args_len(requests[i].args);
    }
    lemma_frames_round_trip(payloads);
    assert forall|i: int| 0 <= i < requests.len() implies spec_decode_request(
        #[trigger] spec_request_payloads(requests)[i],
    ) == Some(requests[i]) by {
        lemma_request_round_trip(requests[i]);
    }
}

} // verus!
