//! Array frames: `*<count>\r\n<frame>...<frame>`, or the null literal
//! `*-1\r\n`.  The null form is wire-distinct from an empty array.

use vstd::prelude::*;
use crate::protocol::bulk_strings::null_lit_at;
use crate::protocol::decspec::{
    lemma_prepend_elems_empty, lemma_prepend_elems_step, null_array_lit, prepend_elems,
    spec_dec_array, spec_dec_elems, spec_exp_composite,
};
use crate::protocol::model::FrameV;
use crate::protocol::protocols::{dec_frame_at, exp_composite_at, frames_view, RespFrame};
use crate::protocol::{
    dec_post, lemma_nth_crlf_bounds, parse_length, RespDecode, RespError, SpecDec, SpecExp,
    TAG_ARRAY,
};

verus! {

/// An ordered sequence of frames; `None` is the explicit null array.
#[derive(Debug, PartialEq)]
pub struct RespArray(pub Option<Vec<RespFrame>>);

impl DeepView for RespArray {
    type V = Option<Seq<FrameV>>;

    open spec fn deep_view(&self) -> Option<Seq<FrameV>>
        decreases self,
    {
        match &self.0 {
            Some(v) => Some(frames_view(v@)),
            None => None,
        }
    }
}

impl RespArray {
    /// Wrap frames as a present array.
    pub fn new(s: Vec<RespFrame>) -> (r: Self)
        ensures
            r.deep_view() == Some(frames_view(s@)),
    {
        RespArray(Some(s))
    }

    /// The explicit null array.
    pub fn new_null() -> (r: Self)
        ensures
            r.deep_view() == Option::<Seq<FrameV>>::None,
    {
        RespArray(None)
    }
}

impl Clone for RespArray {
    /// Copying keeps the array's view exactly, element by element.
    fn clone(&self) -> (r: Self)
        ensures
            r.deep_view() == self.deep_view(),
        decreases self,
    {
        match &self.0 {
            None => RespArray(None),
            Some(v) => {
                let mut out: Vec<RespFrame> = Vec::new();
                let mut i: usize = 0;
                while i < v.len()
                    invariant
                        i <= v@.len(),
                        out@.len() == i,
                        self.0 matches Some(vv) && vv == *v,
                        forall|j: int|
                            0 <= j < i ==> #[trigger] out@[j].deep_view() == v@[j].deep_view(),
                    decreases v@.len() - i,
                {
                    proof {
                        assert(decreases_to!(*self => self.0));
                        assert(decreases_to!(self.0 => *v));
                        assert(decreases_to!(*v => v@[i as int]));
                    }
                    out.push(v[i].clone());
                    i = i + 1;
                }
                let r = RespArray(Some(out));
                proof {
                    assert forall|j: int| 0 <= j < out@.len() implies frames_view(out@)[j]
                        == frames_view(v@)[j] by {
                        assert(frames_view(out@)[j] == out@[j].deep_view());
                        assert(frames_view(v@)[j] == v@[j].deep_view());
                    }
                    assert(frames_view(out@) =~= frames_view(v@));
                }
                r
            },
        }
    }
}


/// Decode an array frame standing at the front of `t`: the null literal, or
/// a count header followed by that many frames, all checked before any
/// caller consumes a byte.
#[verifier::loop_isolation(false)]
pub fn dec_array_at(t: &[u8]) -> (r: Result<(RespArray, usize), RespError>)
    ensures
        dec_post::<RespArray>(spec_dec_array(t@), t@.len() as int, r),
    decreases t@.len(), 0int,
{
    if null_lit_at(t, TAG_ARRAY) {
        proof {
            assert(t@.subrange(0, 5) == null_array_lit());
        }
        return Ok((RespArray(None), 5));
    }
    let (end, count) = match parse_length(t, TAG_ARRAY) {
        Ok(p) => p,
        Err(e) => {
            return Err(e);
        },
    };
    proof {
        vstd::slice::axiom_spec_len::<u8>(t);
        lemma_nth_crlf_bounds(t@, 1, 1);
    }
    let hdr = end + 2;
    let ghost body = t@.skip(hdr as int);
    let mut out: Vec<RespFrame> = Vec::new();
    let mut pos: usize = hdr;
    let mut i: usize = 0;
    proof {
        lemma_prepend_elems_empty(spec_dec_elems(body, count as nat));
        assert(frames_view(out@) =~= Seq::<FrameV>::empty());
    }
    while i < count
        invariant
            3 <= hdr <= pos <= t@.len(),
            i <= count,
            out@.len() == i,
            body == t@.skip(hdr as int),
            spec_dec_elems(body, count as nat) == prepend_elems(
                frames_view(out@),
                pos - hdr,
                spec_dec_elems(t@.skip(pos as int), (count - i) as nat),
            ),
        decreases count - i,
    {
        let sub = vstd::slice::slice_subrange(t, pos, t.len());
        proof {
            assert(sub@ =~= t@.skip(pos as int));
        }
        match dec_frame_at(sub) {
            Ok((f, n)) => {
                proof {
                    assert(t@.skip(pos as int).skip(n as int) =~= t@.skip(pos + n as int));
                    lemma_prepend_elems_step(
                        frames_view(out@),
                        pos - hdr,
                        f.deep_view(),
                        n as int,
                        spec_dec_elems(t@.skip(pos + n as int), (count - i - 1) as nat),
                    );
                    assert(frames_view(out@.push(f)) =~= frames_view(out@).push(f.deep_view()));
                }
                out.push(f);
                pos = pos + n;
                i = i + 1;
            },
            Err(e) => {
                return Err(e);
            },
        }
    }
    proof {
        assert(frames_view(out@) + Seq::<FrameV>::empty() =~= frames_view(out@));
    }
    Ok((RespArray(Some(out)), pos))
}

impl RespDecode for RespArray {
    open spec fn spec_decode(s: Seq<u8>) -> SpecDec<Option<Seq<FrameV>>> {
        spec_dec_array(s)
    }

    open spec fn spec_expect(s: Seq<u8>) -> SpecExp {
        spec_exp_composite(s, TAG_ARRAY, 1)
    }

    fn decode(buf: &mut bytes::BytesMut) -> (r: Result<Self, RespError>) {
        let s = crate::protocol::bytes_buf::buf_bytes(buf);
        match dec_array_at(s) {
            Ok((f, n)) => {
                crate::protocol::bytes_buf::buf_advance(buf, n);
                Ok(f)
            },
            Err(e) => Err(e),
        }
    }

    fn expect_length(buf: &[u8]) -> (r: Result<usize, RespError>) {
        exp_composite_at(buf, TAG_ARRAY, 1)
    }
}


impl crate::protocol::RespEncode for RespArray {
    open spec fn spec_encoding(&self) -> Seq<u8> {
        crate::protocol::model::enc_frame(FrameV::Array(self.deep_view()))
    }

    fn encode(self) -> (r: Vec<u8>) {
        let mut out: Vec<u8> = Vec::new();
        crate::protocol::protocols::enc_frame_into(&RespFrame::Array(self), &mut out);
        out
    }
}

} // verus!
