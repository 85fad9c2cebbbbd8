//! The generic null frame: the fixed literal `_\r\n`.

use vstd::prelude::*;
use crate::protocol::decspec::spec_dec_null;
use crate::protocol::{
    dec_post, RespDecode, RespEncode, RespError, SpecDec, SpecExp, CR, LF, TAG_NULL,
};

verus! {

/// The generic null marker, wire-distinct from a null bulk string and from a
/// null array.
#[derive(Debug, Clone, Copy, PartialEq, Eq, Structural)]
pub struct RespNull;

impl DeepView for RespNull {
    type V = ();

    open spec fn deep_view(&self) -> () {
        ()
    }
}

/// Decode the generic null frame standing at the front of `t`.
pub fn dec_null_at(t: &[u8]) -> (r: Result<(RespNull, usize), RespError>)
    ensures
        dec_post::<RespNull>(spec_dec_null(t@), t@.len() as int, r),
{
    if t.len() < 3 {
        return Err(RespError::NotComplete);
    }
    if t[0] != TAG_NULL {
        return Err(RespError::InvalidFrameType);
    }
    if t[1] == CR && t[2] == LF {
        Ok((RespNull, 3))
    } else {
        Err(RespError::InvalidFrame)
    }
}

impl RespDecode for RespNull {
    open spec fn spec_decode(s: Seq<u8>) -> SpecDec<()> {
        spec_dec_null(s)
    }

    open spec fn spec_expect(s: Seq<u8>) -> SpecExp {
        SpecExp::Len(3)
    }

    fn decode(buf: &mut bytes::BytesMut) -> (r: Result<Self, RespError>) {
        let s = crate::protocol::bytes_buf::buf_bytes(buf);
        match dec_null_at(s) {
            Ok((f, n)) => {
                crate::protocol::bytes_buf::buf_advance(buf, n);
                Ok(f)
            },
            Err(e) => Err(e),
        }
    }

    fn expect_length(buf: &[u8]) -> (r: Result<usize, RespError>) {
        Ok(3)
    }
}

impl RespEncode for RespNull {
    open spec fn spec_encoding(&self) -> Seq<u8> {
        crate::protocol::model::enc_frame(crate::protocol::model::FrameV::Null)
    }

    fn encode(self) -> (r: Vec<u8>) {
        let mut out: Vec<u8> = Vec::new();
        out.push(TAG_NULL);
        out.push(CR);
        out.push(LF);
        proof {
            assert(out@ =~= seq![TAG_NULL, CR, LF]);
        }
        out
    }
}

} // verus!
