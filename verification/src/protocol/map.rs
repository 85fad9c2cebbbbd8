//! Map frames: `%<pair-count>\r\n` followed by alternating key and value
//! frames.  Encounter order round-trips; the codec never deduplicates keys.

use vstd::prelude::*;
use crate::protocol::decspec::{
    lemma_prepend_pairs_empty, lemma_prepend_pairs_step, prepend_pairs, spec_dec_map,
    spec_dec_pairs, spec_exp_composite,
};
use crate::protocol::model::FrameV;
use crate::protocol::protocols::{dec_frame_at, exp_composite_at, pairs_view, RespFrame};
use crate::protocol::{
    dec_post, lemma_nth_crlf_bounds, parse_length, RespDecode, RespError, SpecDec, SpecExp,
    TAG_MAP,
};

verus! {

/// An ordered sequence of key/value pairs of frames.
#[derive(Debug, PartialEq)]
pub struct RespMap(pub Vec<(RespFrame, RespFrame)>);

impl DeepView for RespMap {
    type V = Seq<(FrameV, FrameV)>;

    open spec fn deep_view(&self) -> Seq<(FrameV, FrameV)>
        decreases self,
    {
        pairs_view(self.0@)
    }
}

impl RespMap {
    /// Wrap key/value pairs as a map frame.
    pub fn new(pairs: Vec<(RespFrame, RespFrame)>) -> (r: Self)
        ensures
            r.deep_view() == pairs_view(pairs@),
    {
        RespMap(pairs)
    }
}

impl Clone for RespMap {
    /// Copying keeps the map's view exactly, pair by pair.
    fn clone(&self) -> (r: Self)
        ensures
            r.deep_view() == self.deep_view(),
        decreases self,
    {
        let v = &self.0;
        let mut out: Vec<(RespFrame, RespFrame)> = Vec::new();
        let mut i: usize = 0;
        while i < v.len()
            invariant
                i <= v@.len(),
                out@.len() == i,
                self.0 == *v,
                forall|j: int|
                    0 <= j < i ==> #[trigger] out@[j].0.deep_view() == v@[j].0.deep_view()
                        && out@[j].1.deep_view() == v@[j].1.deep_view(),
            decreases v@.len() - i,
        {
            proof {
                assert(decreases_to!(*self => self.0));
                assert(decreases_to!(self.0 => v@[i as int]));
                assert(decreases_to!(v@[i as int] => v@[i as int].0));
                assert(decreases_to!(v@[i as int] => v@[i as int].1));
            }
            let k = v[i].0.clone();
            let w = v[i].1.clone();
            out.push((k, w));
            i = i + 1;
        }
        let r = RespMap(out);
        proof {
            assert forall|j: int| 0 <= j < out@.len() implies pairs_view(out@)[j] == pairs_view(
                v@,
            )[j] by {
                assert(pairs_view(out@)[j] == (out@[j].0.deep_view(), out@[j].1.deep_view()));
                assert(pairs_view(v@)[j] == (v@[j].0.deep_view(), v@[j].1.deep_view()));
            }
            assert(pairs_view(out@) =~= pairs_view(v@));
        }
        r
    }
}


/// Decode a map frame standing at the front of `t`: a pair-count header
/// followed by that many key/value pairs, all checked before any caller
/// consumes a byte.
#[verifier::loop_isolation(false)]
#[verifier::rlimit(60)]
pub fn dec_map_at(t: &[u8]) -> (r: Result<(RespMap, usize), RespError>)
    ensures
        dec_post::<RespMap>(spec_dec_map(t@), t@.len() as int, r),
    decreases t@.len(), 0int,
{
    let (end, count) = match parse_length(t, TAG_MAP) {
        Ok(p) => p,
        Err(e) => {
            return Err(e);
        },
    };
    proof {
        vstd::slice::axiom_spec_len::<u8>(t);
        lemma_nth_crlf_bounds(t@, 1, 1);
    }
    let hdr = end + 2;
    let ghost body = t@.skip(hdr as int);
    let mut out: Vec<(RespFrame, RespFrame)> = Vec::new();
    let mut pos: usize = hdr;
    let mut i: usize = 0;
    proof {
        lemma_prepend_pairs_empty(spec_dec_pairs(body, count as nat));
        assert(pairs_view(out@) =~= Seq::<(FrameV, FrameV)>::empty());
    }
    while i < count
        invariant
            3 <= hdr <= pos <= t@.len(),
            i <= count,
            out@.len() == i,
            body == t@.skip(hdr as int),
            spec_dec_pairs(body, count as nat) == prepend_pairs(
                pairs_view(out@),
                pos - hdr,
                spec_dec_pairs(t@.skip(pos as int), (count - i) as nat),
            ),
        decreases count - i,
    {
        let sub = vstd::slice::slice_subrange(t, pos, t.len());
        proof {
            assert(sub@ =~= t@.skip(pos as int));
        }
        let (key, n) = match dec_frame_at(sub) {
            Ok(p) => p,
            Err(e) => {
                return Err(e);
            },
        };
        proof {
            assert(t@.skip(pos as int).skip(n as int) =~= t@.skip(pos + n as int));
        }
        let sub2 = vstd::slice::slice_subrange(t, pos + n, t.len());
        proof {
            assert(sub2@ =~= t@.skip(pos + n as int));
        }
        let (val, m) = match dec_frame_at(sub2) {
            Ok(p) => p,
            Err(e) => {
                return Err(e);
            },
        };
        proof {
            assert(t@.skip(pos + n as int).skip(m as int) =~= t@.skip(pos + n + m as int));
            assert(t@.skip(pos as int).skip((n + m) as int) =~= t@.skip(pos + n + m as int));
            lemma_prepend_pairs_step(
                pairs_view(out@),
                pos - hdr,
                (key.deep_view(), val.deep_view()),
                (n + m) as int,
                spec_dec_pairs(t@.skip(pos + n + m as int), (count - i - 1) as nat),
            );
            assert(pairs_view(out@.push((key, val))) =~= pairs_view(out@).push(
                (key.deep_view(), val.deep_view()),
            ));
        }
        out.push((key, val));
        pos = pos + n + m;
        i = i + 1;
    }
    proof {
        assert(pairs_view(out@) + Seq::<(FrameV, FrameV)>::empty() =~= pairs_view(out@));
    }
    Ok((RespMap(out), pos))
}

impl RespDecode for RespMap {
    open spec fn spec_decode(s: Seq<u8>) -> SpecDec<Seq<(FrameV, FrameV)>> {
        spec_dec_map(s)
    }

    open spec fn spec_expect(s: Seq<u8>) -> SpecExp {
        spec_exp_composite(s, TAG_MAP, 2)
    }

    fn decode(buf: &mut bytes::BytesMut) -> (r: Result<Self, RespError>) {
        let s = crate::protocol::bytes_buf::buf_bytes(buf);
        match dec_map_at(s) {
            Ok((f, n)) => {
                crate::protocol::bytes_buf::buf_advance(buf, n);
                Ok(f)
            },
            Err(e) => Err(e),
        }
    }

    fn expect_length(buf: &[u8]) -> (r: Result<usize, RespError>) {
        exp_composite_at(buf, TAG_MAP, 2)
    }
}


impl crate::protocol::RespEncode for RespMap {
    open spec fn spec_encoding(&self) -> Seq<u8> {
        crate::protocol::model::enc_frame(FrameV::Pairs(self.deep_view()))
    }

    fn encode(self) -> (r: Vec<u8>) {
        let mut out: Vec<u8> = Vec::new();
        crate::protocol::protocols::enc_frame_into(&RespFrame::Pairs(self), &mut out);
        out
    }
}

} // verus!
