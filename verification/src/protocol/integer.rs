//! Integer frames: `:[+|-]<digits>\r\n`, a 64-bit signed value with an
//! explicit sign emitted on encode.

use vstd::prelude::*;
use crate::protocol::decspec::{spec_dec_integer, spec_parse_i64, spec_simple_end};
use crate::protocol::model::{crlf, enc_frame, FrameV};
use crate::protocol::num::{fmt_i64, parse_digits_u64};
use crate::protocol::{
    dec_post, extract_simple_frame_data, lemma_nth_crlf_bounds, RespDecode, RespEncode,
    RespError, SpecDec, SpecEnd, SpecExp, CR, LF, TAG_INTEGER,
};

verus! {

/// Decode an integer frame standing at the front of `t`.
pub fn dec_integer_at(t: &[u8]) -> (r: Result<(i64, usize), RespError>)
    ensures
        dec_post::<i64>(spec_dec_integer(t@), t@.len() as int, r),
{
    let end = match extract_simple_frame_data(t, TAG_INTEGER) {
        Ok(e) => e,
        Err(e) => {
            return Err(e);
        },
    };
    proof {
        vstd::slice::axiom_spec_len::<u8>(t);
        lemma_nth_crlf_bounds(t@, 1, 1);
    }
    let ghost text = t@.subrange(1, end as int);
    let has_sign = end > 1 && (t[1] == 43 || t[1] == 45);
    let neg = end > 1 && t[1] == 45;
    let dstart: usize = if has_sign {
        2
    } else {
        1
    };
    proof {
        if has_sign {
            assert(text.skip(1) =~= t@.subrange(2, end as int));
        } else {
            assert(text =~= t@.subrange(1, end as int));
        }
    }
    let cap: u64 = if neg {
        0x8000_0000_0000_0000
    } else {
        0x7fff_ffff_ffff_ffff
    };
    match parse_digits_u64(t, dstart, end, cap) {
        Some(v) => {
            let value: i64 = if neg {
                if v == 0x8000_0000_0000_0000 {
                    i64::MIN
                } else {
                    -(v as i64)
                }
            } else {
                v as i64
            };
            Ok((value, end + 2))
        },
        None => Err(RespError::InvalidFrame),
    }
}

impl RespDecode for i64 {
    open spec fn spec_decode(s: Seq<u8>) -> SpecDec<i64> {
        spec_dec_integer(s)
    }

    open spec fn spec_expect(s: Seq<u8>) -> SpecExp {
        match spec_simple_end(s, TAG_INTEGER) {
            SpecEnd::End(end) => SpecExp::Len(end + 2),
            SpecEnd::Inc => SpecExp::Inc,
            SpecEnd::FmtType => SpecExp::FmtType,
        }
    }

    fn decode(buf: &mut bytes::BytesMut) -> (r: Result<Self, RespError>) {
        let s = crate::protocol::bytes_buf::buf_bytes(buf);
        match dec_integer_at(s) {
            Ok((f, n)) => {
                crate::protocol::bytes_buf::buf_advance(buf, n);
                Ok(f)
            },
            Err(e) => Err(e),
        }
    }

    fn expect_length(buf: &[u8]) -> (r: Result<usize, RespError>) {
        match extract_simple_frame_data(buf, TAG_INTEGER) {
            Ok(end) => {
                proof {
                    vstd::slice::axiom_spec_len::<u8>(buf);
                    lemma_nth_crlf_bounds(buf@, 1, 1);
                }
                Ok(end + 2)
            },
            Err(e) => Err(e),
        }
    }
}

impl RespEncode for i64 {
    open spec fn spec_encoding(&self) -> Seq<u8> {
        enc_frame(FrameV::Integer(*self))
    }

    fn encode(self) -> (r: Vec<u8>) {
        let mut out: Vec<u8> = Vec::new();
        out.push(TAG_INTEGER);
        let mut digits = fmt_i64(self);
        out.append(&mut digits);
        out.push(CR);
        out.push(LF);
        proof {
            assert(out@ =~= seq![TAG_INTEGER] + crate::protocol::model::int_text(self as int)
                + crlf());
        }
        out
    }
}

} // verus!
