//! Boolean frames: the fixed literals `#t\r\n` and `#f\r\n`.

use vstd::prelude::*;
use crate::protocol::decspec::spec_dec_bool;
use crate::protocol::{
    dec_post, RespDecode, RespEncode, RespError, SpecDec, SpecExp, CR, LF, TAG_BOOL,
};

verus! {

/// Decode a boolean frame standing at the front of `t`: an exact four-byte
/// match against either literal.
pub fn dec_bool_at(t: &[u8]) -> (r: Result<(bool, usize), RespError>)
    ensures
        dec_post::<bool>(spec_dec_bool(t@), t@.len() as int, r),
{
    if t.len() < 4 {
        return Err(RespError::NotComplete);
    }
    if t[0] != TAG_BOOL {
        return Err(RespError::InvalidFrameType);
    }
    if t[1] == 116 && t[2] == CR && t[3] == LF {
        Ok((true, 4))
    } else if t[1] == 102 && t[2] == CR && t[3] == LF {
        Ok((false, 4))
    } else {
        Err(RespError::InvalidFrame)
    }
}

impl RespDecode for bool {
    open spec fn spec_decode(s: Seq<u8>) -> SpecDec<bool> {
        spec_dec_bool(s)
    }

    open spec fn spec_expect(s: Seq<u8>) -> SpecExp {
        SpecExp::Len(4)
    }

    fn decode(buf: &mut bytes::BytesMut) -> (r: Result<Self, RespError>) {
        let s = crate::protocol::bytes_buf::buf_bytes(buf);
        match dec_bool_at(s) {
            Ok((f, n)) => {
                crate::protocol::bytes_buf::buf_advance(buf, n);
                Ok(f)
            },
            Err(e) => Err(e),
        }
    }

    fn expect_length(buf: &[u8]) -> (r: Result<usize, RespError>) {
        Ok(4)
    }
}

impl RespEncode for bool {
    open spec fn spec_encoding(&self) -> Seq<u8> {
        crate::protocol::model::enc_frame(crate::protocol::model::FrameV::Boolean(*self))
    }

    fn encode(self) -> (r: Vec<u8>) {
        let mut out: Vec<u8> = Vec::new();
        out.push(TAG_BOOL);
        if self {
            out.push(116);
        } else {
            out.push(102);
        }
        out.push(CR);
        out.push(LF);
        proof {
            if self {
                assert(out@ =~= seq![TAG_BOOL, 116u8, CR, LF]);
            } else {
                assert(out@ =~= seq![TAG_BOOL, 102u8, CR, LF]);
            }
        }
        out
    }
}

} // verus!
