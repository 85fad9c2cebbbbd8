//! The frame union: every value exchangeable over the wire, and the
//! conversions that build frames from plain values.

use vstd::prelude::*;
use crate::protocol::array::{dec_array_at, RespArray};
use crate::protocol::bulk_strings::{dec_bulk_at, null_lit_at, BulkString};
use crate::protocol::bool::dec_bool_at;
use crate::protocol::decspec::{
    lemma_prepend_exp_step, null_array_lit, prepend_exp, spec_dec_frame, spec_exp_composite,
    spec_exp_elems, spec_exp_frame,
};
use crate::protocol::double::{dec_double_at, RespDouble};
use crate::protocol::integer::dec_integer_at;
use crate::protocol::model::{
    crlf, enc_frame, enc_pairs, enc_seq, lemma_enc_pairs_app, lemma_enc_pairs_one,
    lemma_enc_seq_app, lemma_enc_seq_one, FrameV,
};
use crate::protocol::num::{fmt_i64, fmt_u64};
use crate::protocol::map::{dec_map_at, RespMap};
use crate::protocol::null::{dec_null_at, RespNull};
use crate::protocol::set::{dec_set_at, RespSet};
use crate::protocol::simple_error::{dec_simple_error_at, SimpleError};
use crate::protocol::simple_string::{dec_simple_string_at, SimpleString};
use crate::protocol::{
    dec_post, extend_bytes, lemma_nth_crlf_bounds, parse_length, RespDecode, RespEncode,
    RespError, SpecDec, SpecExp, CR, LF, TAG_ARRAY, TAG_BOOL, TAG_BULK, TAG_DOUBLE, TAG_ERROR,
    TAG_INTEGER, TAG_MAP, TAG_NULL, TAG_SET, TAG_SIMPLE,
};

verus! {

/// The views of a sequence of frames, in order.
pub open spec fn frames_view(s: Seq<RespFrame>) -> Seq<FrameV>
    decreases s,
{
    Seq::new(
        s.len(),
        |i: int|
            if 0 <= i < s.len() {
                s[i].deep_view()
            } else {
                FrameV::Null
            },
    )
}

/// The views of a sequence of key/value pairs of frames, in order.
pub open spec fn pairs_view(s: Seq<(RespFrame, RespFrame)>) -> Seq<(FrameV, FrameV)>
    decreases s,
{
    Seq::new(
        s.len(),
        |i: int|
            if 0 <= i < s.len() {
                (s[i].0.deep_view(), s[i].1.deep_view())
            } else {
                (FrameV::Null, FrameV::Null)
            },
    )
}

/// One fully-typed protocol value.  Each variant owns a fixed tag byte on the
/// wire, and the dispatcher selects the codec by that tag alone.
#[derive(Debug, PartialEq)]
pub enum RespFrame {
    SimpleString(SimpleString),
    Error(SimpleError),
    Integer(i64),
    BulkString(BulkString),
    Array(RespArray),
    Null(RespNull),
    Boolean(bool),
    Double(RespDouble),
    Pairs(RespMap),
    Members(RespSet),
}

impl DeepView for RespFrame {
    type V = FrameV;

    open spec fn deep_view(&self) -> FrameV
        decreases self,
    {
        match self {
            RespFrame::SimpleString(s) => FrameV::SimpleString(s.deep_view()),
            RespFrame::Error(e) => FrameV::SimpleError(e.deep_view()),
            RespFrame::Integer(n) => FrameV::Integer(*n),
            RespFrame::BulkString(b) => FrameV::BulkString(b.deep_view()),
            RespFrame::Array(a) => FrameV::Array(a.deep_view()),
            RespFrame::Null(_) => FrameV::Null,
            RespFrame::Boolean(b) => FrameV::Boolean(*b),
            RespFrame::Double(d) => FrameV::Double(d.deep_view()),
            RespFrame::Pairs(m) => FrameV::Pairs(m.deep_view()),
            RespFrame::Members(s) => FrameV::Members(s.deep_view()),
        }
    }
}

impl From<bool> for RespFrame {
    /// A boolean becomes a boolean frame.
    fn from(b: bool) -> (r: Self) {
        RespFrame::Boolean(b)
    }
}

impl vstd::std_specs::convert::FromSpecImpl<bool> for RespFrame {
    open spec fn obeys_from_spec() -> bool {
        true
    }

    open spec fn from_spec(b: bool) -> Self {
        RespFrame::Boolean(b)
    }
}

impl From<i64> for RespFrame {
    /// An integer becomes an integer frame.
    fn from(n: i64) -> (r: Self) {
        RespFrame::Integer(n)
    }
}

impl vstd::std_specs::convert::FromSpecImpl<i64> for RespFrame {
    open spec fn obeys_from_spec() -> bool {
        true
    }

    open spec fn from_spec(n: i64) -> Self {
        RespFrame::Integer(n)
    }
}

impl From<&[u8]> for RespFrame {
    /// Bytes become a present bulk string frame.
    fn from(s: &[u8]) -> (r: Self) {
        RespFrame::BulkString(BulkString(Some(vstd::slice::slice_to_vec(s))))
    }
}

impl vstd::std_specs::convert::FromSpecImpl<&[u8]> for RespFrame {
    open spec fn obeys_from_spec() -> bool {
        false
    }

    open spec fn from_spec(s: &[u8]) -> Self {
        RespFrame::BulkString(BulkString(None))
    }
}

impl From<Option<&[u8]>> for RespFrame {
    /// Present bytes become a bulk string; absence becomes the null bulk
    /// string.
    fn from(s: Option<&[u8]>) -> (r: Self) {
        match s {
            Some(b) => RespFrame::BulkString(BulkString(Some(vstd::slice::slice_to_vec(b)))),
            None => RespFrame::BulkString(BulkString(None)),
        }
    }
}

impl vstd::std_specs::convert::FromSpecImpl<Option<&[u8]>> for RespFrame {
    open spec fn obeys_from_spec() -> bool {
        false
    }

    open spec fn from_spec(s: Option<&[u8]>) -> Self {
        RespFrame::BulkString(BulkString(None))
    }
}

impl From<Option<Vec<RespFrame>>> for RespArray {
    /// A present sequence becomes an array; absence becomes the null array.
    fn from(s: Option<Vec<RespFrame>>) -> (r: Self) {
        RespArray(s)
    }
}

impl vstd::std_specs::convert::FromSpecImpl<Option<Vec<RespFrame>>> for RespArray {
    open spec fn obeys_from_spec() -> bool {
        true
    }

    open spec fn from_spec(s: Option<Vec<RespFrame>>) -> Self {
        RespArray(s)
    }
}


impl Clone for RespFrame {
    /// Copying keeps the frame's view exactly, recursively.
    fn clone(&self) -> (r: Self)
        ensures
            r.deep_view() == self.deep_view(),
        decreases self,
    {
        match self {
            RespFrame::SimpleString(s) => RespFrame::SimpleString(s.clone()),
            RespFrame::Error(e) => RespFrame::Error(e.clone()),
            RespFrame::Integer(n) => RespFrame::Integer(*n),
            RespFrame::BulkString(b) => RespFrame::BulkString(b.clone()),
            RespFrame::Array(a) => RespFrame::Array(a.clone()),
            RespFrame::Null(_) => RespFrame::Null(RespNull),
            RespFrame::Boolean(b) => RespFrame::Boolean(*b),
            RespFrame::Double(d) => RespFrame::Double(d.clone()),
            RespFrame::Pairs(m) => RespFrame::Pairs(m.clone()),
            RespFrame::Members(s) => RespFrame::Members(s.clone()),
        }
    }
}


/// Decode the frame standing at the front of `t`, selecting the codec by the
/// leading tag byte alone.  An empty buffer is incomplete; an unknown tag is
/// a format error.
pub fn dec_frame_at(t: &[u8]) -> (r: Result<(RespFrame, usize), RespError>)
    ensures
        dec_post::<RespFrame>(spec_dec_frame(t@), t@.len() as int, r),
    decreases t@.len(), 1int,
{
    if t.len() == 0 {
        return Err(RespError::NotComplete);
    }
    let tag = t[0];
    if tag == TAG_SIMPLE {
        match dec_simple_string_at(t) {
            Ok((f, n)) => Ok((RespFrame::SimpleString(f), n)),
            Err(e) => Err(e),
        }
    } else if tag == TAG_ERROR {
        match dec_simple_error_at(t) {
            Ok((f, n)) => Ok((RespFrame::Error(f), n)),
            Err(e) => Err(e),
        }
    } else if tag == TAG_INTEGER {
        match dec_integer_at(t) {
            Ok((f, n)) => Ok((RespFrame::Integer(f), n)),
            Err(e) => Err(e),
        }
    } else if tag == TAG_BULK {
        match dec_bulk_at(t) {
            Ok((f, n)) => Ok((RespFrame::BulkString(f), n)),
            Err(e) => Err(e),
        }
    } else if tag == TAG_ARRAY {
        match dec_array_at(t) {
            Ok((f, n)) => Ok((RespFrame::Array(f), n)),
            Err(e) => Err(e),
        }
    } else if tag == TAG_NULL {
        match dec_null_at(t) {
            Ok((f, n)) => Ok((RespFrame::Null(f), n)),
            Err(e) => Err(e),
        }
    } else if tag == TAG_BOOL {
        match dec_bool_at(t) {
            Ok((f, n)) => Ok((RespFrame::Boolean(f), n)),
            Err(e) => Err(e),
        }
    } else if tag == TAG_DOUBLE {
        match dec_double_at(t) {
            Ok((f, n)) => Ok((RespFrame::Double(f), n)),
            Err(e) => Err(e),
        }
    } else if tag == TAG_MAP {
        match dec_map_at(t) {
            Ok((f, n)) => Ok((RespFrame::Pairs(f), n)),
            Err(e) => Err(e),
        }
    } else if tag == TAG_SET {
        match dec_set_at(t) {
            Ok((f, n)) => Ok((RespFrame::Members(f), n)),
            Err(e) => Err(e),
        }
    } else {
        Err(RespError::InvalidFrameType)
    }
}

/// Every span the element predictor reports fits in a machine word and is
/// non-negative: spans beyond the address space read as incomplete instead.
pub proof fn lemma_exp_elems_bounds(s: Seq<u8>, count: nat)
    ensures
        spec_exp_elems(s, count) matches SpecExp::Len(m) ==> 0 <= m <= usize::MAX,
    decreases s.len(), 2int, count,
{
    if count > 0 {
        match spec_exp_frame(s) {
            SpecExp::Len(n) => {
                if n >= 0 {
                    let k = if n <= s.len() {
                        n
                    } else {
                        s.len() as int
                    };
                    lemma_exp_elems_bounds(s.skip(k), (count - 1) as nat);
                }
            },
            _ => {},
        }
    }
}

/// Predict the total span of a counted composite frame from its header and
/// the predicted spans of its nested frames.
#[verifier::loop_isolation(false)]
#[verifier::rlimit(60)]
pub fn exp_composite_at(t: &[u8], tag: u8, factor: usize) -> (r: Result<usize, RespError>)
    requires
        factor == 1 || factor == 2,
    ensures
        match spec_exp_composite(t@, tag, factor as nat) {
            SpecExp::Len(n) => r matches Ok(v) && v == n,
            SpecExp::Inc => r matches Err(e) && e == RespError::NotComplete,
            SpecExp::FmtFrame => r matches Err(e) && e == RespError::InvalidFrame,
            SpecExp::FmtType => r matches Err(e) && e == RespError::InvalidFrameType,
        },
    decreases t@.len(), 0int,
{
    if tag == TAG_ARRAY && null_lit_at(t, TAG_ARRAY) {
        proof {
            assert(t@.subrange(0, 5) == null_array_lit());
        }
        return Ok(5);
    }
    let (end, count) = match parse_length(t, tag) {
        Ok(p) => p,
        Err(e) => {
            return Err(e);
        },
    };
    proof {
        vstd::slice::axiom_spec_len::<u8>(t);
        lemma_nth_crlf_bounds(t@, 1, 1);
    }
    let hdr = end + 2;
    let total_steps: u128 = (factor as u128) * (count as u128);
    let ghost body = t@.skip(hdr as int);
    let ghost total = (factor * count) as nat;
    let mut pos: usize = hdr;
    let mut step: u128 = 0;
    let mut acc: usize = 0;
    let mut acc_ok: bool = true;
    let ghost mut gacc: int = 0int;
    proof {
        assert(total == total_steps as nat);
        lemma_exp_elems_bounds(body, total);
        match spec_exp_elems(body, total) {
            SpecExp::Len(m) => {
                assert(prepend_exp(0, spec_exp_elems(body, total)) == spec_exp_elems(
                    body,
                    total,
                ));
            },
            _ => {},
        }
    }
    while step < total_steps
        invariant
            3 <= hdr <= pos <= t@.len(),
            step <= total_steps,
            total == total_steps as nat,
            body == t@.skip(hdr as int),
            gacc >= 0,
            acc_ok == (gacc <= usize::MAX),
            acc_ok ==> acc == gacc,
            spec_exp_elems(body, total) == prepend_exp(
                gacc,
                spec_exp_elems(t@.skip(pos as int), (total_steps - step) as nat),
            ),
        decreases total_steps - step,
    {
        let sub = vstd::slice::slice_subrange(t, pos, t.len());
        proof {
            assert(sub@ =~= t@.skip(pos as int));
        }
        match exp_frame_at(sub) {
            Ok(n) => {
                proof {
                    let rem = (total_steps - step) as nat;
                    let k: int = if n as int <= sub@.len() {
                        n as int
                    } else {
                        sub@.len() as int
                    };
                    assert(t@.skip(pos as int).skip(k) =~= t@.skip(pos + k));
                    lemma_prepend_exp_step(
                        gacc,
                        n as int,
                        spec_exp_elems(t@.skip(pos + k), (rem - 1) as nat),
                    );
                }
                let remaining = t.len() - pos;
                if n >= remaining {
                    pos = t.len();
                } else {
                    pos = pos + n;
                }
                proof {
                    gacc = gacc + n;
                }
                if acc_ok {
                    if n > usize::MAX - acc {
                        acc_ok = false;
                    } else {
                        acc = acc + n;
                    }
                }
                step = step + 1;
            },
            Err(e) => {
                return Err(e);
            },
        }
    }
    if !acc_ok {
        return Err(RespError::NotComplete);
    }
    if acc > usize::MAX - hdr {
        return Err(RespError::NotComplete);
    }
    Ok(hdr + acc)
}

/// Predict the total span of the frame standing at the front of `t` from
/// its header, without decoding nested payloads.
pub fn exp_frame_at(t: &[u8]) -> (r: Result<usize, RespError>)
    ensures
        match spec_exp_frame(t@) {
            SpecExp::Len(n) => r matches Ok(v) && v == n,
            SpecExp::Inc => r matches Err(e) && e == RespError::NotComplete,
            SpecExp::FmtFrame => r matches Err(e) && e == RespError::InvalidFrame,
            SpecExp::FmtType => r matches Err(e) && e == RespError::InvalidFrameType,
        },
    decreases t@.len(), 1int,
{
    if t.len() == 0 {
        return Err(RespError::NotComplete);
    }
    let tag = t[0];
    if tag == TAG_SIMPLE || tag == TAG_ERROR || tag == TAG_INTEGER || tag == TAG_DOUBLE {
        match crate::protocol::extract_simple_frame_data(t, tag) {
            Ok(end) => {
                proof {
                    vstd::slice::axiom_spec_len::<u8>(t);
                    lemma_nth_crlf_bounds(t@, 1, 1);
                }
                Ok(end + 2)
            },
            Err(e) => Err(e),
        }
    } else if tag == TAG_BOOL {
        Ok(4)
    } else if tag == TAG_NULL {
        Ok(3)
    } else if tag == TAG_BULK {
        BulkString::expect_length(t)
    } else if tag == TAG_ARRAY {
        exp_composite_at(t, TAG_ARRAY, 1)
    } else if tag == TAG_MAP {
        exp_composite_at(t, TAG_MAP, 2)
    } else if tag == TAG_SET {
        exp_composite_at(t, TAG_SET, 1)
    } else {
        Err(RespError::InvalidFrameType)
    }
}

impl RespDecode for RespFrame {
    open spec fn spec_decode(s: Seq<u8>) -> SpecDec<FrameV> {
        spec_dec_frame(s)
    }

    open spec fn spec_expect(s: Seq<u8>) -> SpecExp {
        spec_exp_frame(s)
    }

    fn decode(buf: &mut bytes::BytesMut) -> (r: Result<Self, RespError>) {
        let s = crate::protocol::bytes_buf::buf_bytes(buf);
        match dec_frame_at(s) {
            Ok((f, n)) => {
                crate::protocol::bytes_buf::buf_advance(buf, n);
                Ok(f)
            },
            Err(e) => Err(e),
        }
    }

    fn expect_length(buf: &[u8]) -> (r: Result<usize, RespError>) {
        exp_frame_at(buf)
    }
}


/// Append the exact wire encoding of `f` to `out`.
#[verifier::loop_isolation(false)]
pub fn enc_frame_into(f: &RespFrame, out: &mut Vec<u8>)
    ensures
        final(out)@ == old(out)@ + enc_frame(f.deep_view()),
    decreases *f,
{
    let ghost base = out@;
    match f {
        RespFrame::SimpleString(s) => {
            out.push(TAG_SIMPLE);
            extend_bytes(out, &s.0);
            out.push(CR);
            out.push(LF);
            proof {
                assert(out@ =~= base + (seq![TAG_SIMPLE] + s.0@ + crlf()));
            }
        },
        RespFrame::Error(e) => {
            out.push(TAG_ERROR);
            extend_bytes(out, &e.0);
            out.push(CR);
            out.push(LF);
            proof {
                assert(out@ =~= base + (seq![TAG_ERROR] + e.0@ + crlf()));
            }
        },
        RespFrame::Integer(n) => {
            out.push(TAG_INTEGER);
            let mut digits = fmt_i64(*n);
            out.append(&mut digits);
            out.push(CR);
            out.push(LF);
            proof {
                assert(out@ =~= base + (seq![TAG_INTEGER]
                    + crate::protocol::model::int_text(*n as int) + crlf()));
            }
        },
        RespFrame::BulkString(b) => {
            match &b.0 {
                None => {
                    out.push(TAG_BULK);
                    out.push(45);
                    out.push(49);
                    out.push(CR);
                    out.push(LF);
                    proof {
                        assert(out@ =~= base + seq![TAG_BULK, 45u8, 49u8, CR, LF]);
                    }
                },
                Some(p) => {
                    out.push(TAG_BULK);
                    let mut digits = fmt_u64(p.len() as u64);
                    out.append(&mut digits);
                    out.push(CR);
                    out.push(LF);
                    extend_bytes(out, p);
                    out.push(CR);
                    out.push(LF);
                    proof {
                        assert(out@ =~= base + (seq![TAG_BULK]
                            + crate::protocol::model::dec_digits(p@.len()) + crlf() + p@
                            + crlf()));
                    }
                },
            }
        },
        RespFrame::Array(a) => {
            match &a.0 {
                None => {
                    out.push(TAG_ARRAY);
                    out.push(45);
                    out.push(49);
                    out.push(CR);
                    out.push(LF);
                    proof {
                        assert(out@ =~= base + seq![TAG_ARRAY, 45u8, 49u8, CR, LF]);
                    }
                },
                Some(v) => {
                    out.push(TAG_ARRAY);
                    let mut digits = fmt_u64(v.len() as u64);
                    out.append(&mut digits);
                    out.push(CR);
                    out.push(LF);
                    let ghost hdr = out@;
                    let mut i: usize = 0;
                    proof {
                        assert(enc_seq(frames_view(v@).take(0int)) =~= Seq::<u8>::empty());
                        assert(hdr + enc_seq(frames_view(v@).take(0int)) =~= hdr);
                    }
                    while i < v.len()
                        invariant
                            i <= v@.len(),
                            out@ == hdr + enc_seq(frames_view(v@).take(i as int)),
                        decreases v@.len() - i,
                    {
                        proof {
                            assert(decreases_to!(*f => *a));
                            assert(decreases_to!(*a => a.0));
                            assert(decreases_to!(a.0 => *v));
                            assert(decreases_to!(*v => v@[i as int]));
                        }
                        enc_frame_into(&v[i], out);
                        proof {
                            let fv = frames_view(v@);
                            assert(fv.take(i + 1 as int) =~= fv.take(i as int) + seq![fv[i as int]]);
                            lemma_enc_seq_app(fv.take(i as int), seq![fv[i as int]]);
                            lemma_enc_seq_one(fv[i as int]);
                            assert(fv[i as int] == v@[i as int].deep_view());
                            assert(hdr + enc_seq(fv.take(i as int)) + enc_frame(v@[i as int].deep_view())
                                =~= hdr + enc_seq(fv.take(i + 1 as int)));
                        }
                        i = i + 1;
                    }
                    proof {
                        let fv = frames_view(v@);
                        assert(fv.take(v@.len() as int) =~= fv);
                        assert(hdr =~= base + (seq![TAG_ARRAY]
                            + crate::protocol::model::dec_digits(fv.len()) + crlf()));
                        assert(out@ =~= base + (seq![TAG_ARRAY]
                            + crate::protocol::model::dec_digits(fv.len()) + crlf()
                            + enc_seq(fv)));
                    }
                },
            }
        },
        RespFrame::Null(_) => {
            out.push(TAG_NULL);
            out.push(CR);
            out.push(LF);
            proof {
                assert(out@ =~= base + seq![TAG_NULL, CR, LF]);
            }
        },
        RespFrame::Boolean(b) => {
            out.push(TAG_BOOL);
            if *b {
                out.push(116);
            } else {
                out.push(102);
            }
            out.push(CR);
            out.push(LF);
            proof {
                if *b {
                    assert(out@ =~= base + seq![TAG_BOOL, 116u8, CR, LF]);
                } else {
                    assert(out@ =~= base + seq![TAG_BOOL, 102u8, CR, LF]);
                }
            }
        },
        RespFrame::Double(d) => {
            out.push(TAG_DOUBLE);
            extend_bytes(out, &d.0);
            out.push(CR);
            out.push(LF);
            proof {
                assert(out@ =~= base + (seq![TAG_DOUBLE] + d.0@ + crlf()));
            }
        },
        RespFrame::Pairs(m) => {
            let v = &m.0;
            out.push(TAG_MAP);
            let mut digits = fmt_u64(v.len() as u64);
            out.append(&mut digits);
            out.push(CR);
            out.push(LF);
            let ghost hdr = out@;
            let mut i: usize = 0;
            proof {
                assert(enc_pairs(pairs_view(v@).take(0int)) =~= Seq::<u8>::empty());
                assert(hdr + enc_pairs(pairs_view(v@).take(0int)) =~= hdr);
            }
            while i < v.len()
                invariant
                    i <= v@.len(),
                    out@ == hdr + enc_pairs(pairs_view(v@).take(i as int)),
                decreases v@.len() - i,
            {
                proof {
                    assert(decreases_to!(*f => *m));
                    assert(decreases_to!(*m => m.0));
                    assert(decreases_to!(m.0 => v@[i as int]));
                    assert(decreases_to!(v@[i as int] => v@[i as int].0));
                    assert(decreases_to!(v@[i as int] => v@[i as int].1));
                }
                enc_frame_into(&v[i].0, out);
                enc_frame_into(&v[i].1, out);
                proof {
                    let pv = pairs_view(v@);
                    assert(pv.take(i + 1 as int) =~= pv.take(i as int) + seq![pv[i as int]]);
                    lemma_enc_pairs_app(pv.take(i as int), seq![pv[i as int]]);
                    lemma_enc_pairs_one(pv[i as int]);
                    assert(pv[i as int].0 == v@[i as int].0.deep_view());
                    assert(pv[i as int].1 == v@[i as int].1.deep_view());
                    assert(hdr + enc_pairs(pv.take(i as int))
                        + enc_frame(v@[i as int].0.deep_view())
                        + enc_frame(v@[i as int].1.deep_view()) =~= hdr + enc_pairs(pv.take(
                        i + 1 as int,
                    )));
                }
                i = i + 1;
            }
            proof {
                let pv = pairs_view(v@);
                assert(pv.take(v@.len() as int) =~= pv);
                assert(out@ =~= base + (seq![TAG_MAP]
                    + crate::protocol::model::dec_digits(pv.len()) + crlf() + enc_pairs(pv)));
            }
        },
        RespFrame::Members(s) => {
            let v = &s.0;
            out.push(TAG_SET);
            let mut digits = fmt_u64(v.len() as u64);
            out.append(&mut digits);
            out.push(CR);
            out.push(LF);
            let ghost hdr = out@;
            let mut i: usize = 0;
            proof {
                assert(enc_seq(frames_view(v@).take(0int)) =~= Seq::<u8>::empty());
                assert(hdr + enc_seq(frames_view(v@).take(0int)) =~= hdr);
            }
            while i < v.len()
                invariant
                    i <= v@.len(),
                    out@ == hdr + enc_seq(frames_view(v@).take(i as int)),
                decreases v@.len() - i,
            {
                proof {
                    assert(decreases_to!(*f => *s));
                    assert(decreases_to!(*s => s.0));
                    assert(decreases_to!(s.0 => v@[i as int]));
                }
                enc_frame_into(&v[i], out);
                proof {
                    let fv = frames_view(v@);
                    assert(fv.take(i + 1 as int) =~= fv.take(i as int) + seq![fv[i as int]]);
                    lemma_enc_seq_app(fv.take(i as int), seq![fv[i as int]]);
                    lemma_enc_seq_one(fv[i as int]);
                    assert(fv[i as int] == v@[i as int].deep_view());
                    assert(hdr + enc_seq(fv.take(i as int)) + enc_frame(v@[i as int].deep_view())
                        =~= hdr + enc_seq(fv.take(i + 1 as int)));
                }
                i = i + 1;
            }
            proof {
                let fv = frames_view(v@);
                assert(fv.take(v@.len() as int) =~= fv);
                assert(out@ =~= base + (seq![TAG_SET]
                    + crate::protocol::model::dec_digits(fv.len()) + crlf() + enc_seq(fv)));
            }
        },
    }
}

impl RespEncode for RespFrame {
    open spec fn spec_encoding(&self) -> Seq<u8> {
        enc_frame(self.deep_view())
    }

    fn encode(self) -> (r: Vec<u8>) {
        let mut out: Vec<u8> = Vec::new();
        enc_frame_into(&self, &mut out);
        out
    }
}

} // verus!
