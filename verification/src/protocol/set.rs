//! Set frames: `~<count>\r\n` followed by the member frames.  Uniqueness is
//! the producer's contract; the codec keeps encounter order and never
//! deduplicates.

use vstd::prelude::*;
use crate::protocol::decspec::{
    lemma_prepend_elems_empty, lemma_prepend_elems_step, prepend_elems, spec_dec_elems,
    spec_dec_set, spec_exp_composite,
};
use crate::protocol::model::FrameV;
use crate::protocol::protocols::{dec_frame_at, exp_composite_at, frames_view, RespFrame};
use crate::protocol::{
    dec_post, lemma_nth_crlf_bounds, parse_length, RespDecode, RespError, SpecDec, SpecExp,
    TAG_SET,
};

verus! {

/// A logically unique collection of frames, held in encounter order.
#[derive(Debug, PartialEq)]
pub struct RespSet(pub Vec<RespFrame>);

impl DeepView for RespSet {
    type V = Seq<FrameV>;

    open spec fn deep_view(&self) -> Seq<FrameV>
        decreases self,
    {
        frames_view(self.0@)
    }
}

impl RespSet {
    /// Wrap member frames as a set frame.
    pub fn new(members: Vec<RespFrame>) -> (r: Self)
        ensures
            r.deep_view() == frames_view(members@),
    {
        RespSet(members)
    }
}

impl Clone for RespSet {
    /// Copying keeps the set's view exactly, member by member.
    fn clone(&self) -> (r: Self)
        ensures
            r.deep_view() == self.deep_view(),
        decreases self,
    {
        let v = &self.0;
        let mut out: Vec<RespFrame> = Vec::new();
        let mut i: usize = 0;
        while i < v.len()
            invariant
                i <= v@.len(),
                out@.len() == i,
                self.0 == *v,
                forall|j: int|
                    0 <= j < i ==> #[trigger] out@[j].deep_view() == v@[j].deep_view(),
            decreases v@.len() - i,
        {
            proof {
                assert(decreases_to!(*self => self.0));
                assert(decreases_to!(self.0 => v@[i as int]));
            }
            out.push(v[i].clone());
            i = i + 1;
        }
        let r = RespSet(out);
        proof {
            assert forall|j: int| 0 <= j < out@.len() implies frames_view(out@)[j] == frames_view(
                v@,
            )[j] by {
                assert(frames_view(out@)[j] == out@[j].deep_view());
                assert(frames_view(v@)[j] == v@[j].deep_view());
            }
            assert(frames_view(out@) =~= frames_view(v@));
        }
        r
    }
}


/// Decode a set frame standing at the front of `t`: a count header followed
/// by that many member frames, all checked before any caller consumes a
/// byte.
#[verifier::loop_isolation(false)]
pub fn dec_set_at(t: &[u8]) -> (r: Result<(RespSet, usize), RespError>)
    ensures
        dec_post::<RespSet>(spec_dec_set(t@), t@.len() as int, r),
    decreases t@.len(), 0int,
{
    let (end, count) = match parse_length(t, TAG_SET) {
        Ok(p) => p,
        Err(e) => {
            return Err(e);
        },
    };
    proof {
        vstd::slice::axiom_spec_len::<u8>(t);
        lemma_nth_crlf_bounds(t@, 1, 1);
    }
    let hdr = end + 2;
    let ghost body = t@.skip(hdr as int);
    let mut out: Vec<RespFrame> = Vec::new();
    let mut pos: usize = hdr;
    let mut i: usize = 0;
    proof {
        lemma_prepend_elems_empty(spec_dec_elems(body, count as nat));
        assert(frames_view(out@) =~= Seq::<FrameV>::empty());
    }
    while i < count
        invariant
            3 <= hdr <= pos <= t@.len(),
            i <= count,
            out@.len() == i,
            body == t@.skip(hdr as int),
            spec_dec_elems(body, count as nat) == prepend_elems(
                frames_view(out@),
                pos - hdr,
                spec_dec_elems(t@.skip(pos as int), (count - i) as nat),
            ),
        decreases count - i,
    {
        let sub = vstd::slice::slice_subrange(t, pos, t.len());
        proof {
            assert(sub@ =~= t@.skip(pos as int));
        }
        match dec_frame_at(sub) {
            Ok((f, n)) => {
                proof {
                    assert(t@.skip(pos as int).skip(n as int) =~= t@.skip(pos + n as int));
                    lemma_prepend_elems_step(
                        frames_view(out@),
                        pos - hdr,
                        f.deep_view(),
                        n as int,
                        spec_dec_elems(t@.skip(pos + n as int), (count - i - 1) as nat),
                    );
                    assert(frames_view(out@.push(f)) =~= frames_view(out@).push(f.deep_view()));
                }
                out.push(f);
                pos = pos + n;
                i = i + 1;
            },
            Err(e) => {
                return Err(e);
            },
        }
    }
    proof {
        assert(frames_view(out@) + Seq::<FrameV>::empty() =~= frames_view(out@));
    }
    Ok((RespSet(out), pos))
}

impl RespDecode for RespSet {
    open spec fn spec_decode(s: Seq<u8>) -> SpecDec<Seq<FrameV>> {
        spec_dec_set(s)
    }

    open spec fn spec_expect(s: Seq<u8>) -> SpecExp {
        spec_exp_composite(s, TAG_SET, 1)
    }

    fn decode(buf: &mut bytes::BytesMut) -> (r: Result<Self, RespError>) {
        let s = crate::protocol::bytes_buf::buf_bytes(buf);
        match dec_set_at(s) {
            Ok((f, n)) => {
                crate::protocol::bytes_buf::buf_advance(buf, n);
                Ok(f)
            },
            Err(e) => Err(e),
        }
    }

    fn expect_length(buf: &[u8]) -> (r: Result<usize, RespError>) {
        exp_composite_at(buf, TAG_SET, 1)
    }
}


impl crate::protocol::RespEncode for RespSet {
    open spec fn spec_encoding(&self) -> Seq<u8> {
        crate::protocol::model::enc_frame(FrameV::Members(self.deep_view()))
    }

    fn encode(self) -> (r: Vec<u8>) {
        let mut out: Vec<u8> = Vec::new();
        crate::protocol::protocols::enc_frame_into(&RespFrame::Members(self), &mut out);
        out
    }
}

} // verus!
