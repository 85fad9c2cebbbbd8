//! Simple string frames: `+<text>\r\n`.

use vstd::prelude::*;
use crate::protocol::decspec::{spec_dec_simple, spec_simple_end};
use crate::protocol::model::{crlf, enc_frame, FrameV};
use crate::protocol::{
    copy_range, dec_post, extract_simple_frame_data, lemma_nth_crlf_bounds, RespDecode,
    RespEncode, RespError, SpecDec, SpecEnd, SpecExp, CR, LF, TAG_SIMPLE,
};

verus! {

/// One line of text with no terminator inside, sent verbatim after a `+` tag.
#[derive(Debug, PartialEq)]
pub struct SimpleString(pub Vec<u8>);

impl DeepView for SimpleString {
    type V = Seq<u8>;

    open spec fn deep_view(&self) -> Seq<u8> {
        self.0@
    }
}

impl SimpleString {
    /// Wrap a line of text as a simple string frame.
    pub fn new(text: Vec<u8>) -> (r: Self)
        ensures
            r.deep_view() == text@,
    {
        SimpleString(text)
    }
}

impl Clone for SimpleString {
    /// Copying keeps the payload exactly.
    fn clone(&self) -> (r: Self)
        ensures
            r.deep_view() == self.deep_view(),
    {
        SimpleString(crate::protocol::clone_bytes(&self.0))
    }
}

/// Decode a simple string frame standing at the front of `t`.
pub fn dec_simple_string_at(t: &[u8]) -> (r: Result<(SimpleString, usize), RespError>)
    ensures
        dec_post::<SimpleString>(spec_dec_simple(t@, TAG_SIMPLE), t@.len() as int, r),
{
    let end = match extract_simple_frame_data(t, TAG_SIMPLE) {
        Ok(e) => e,
        Err(e) => {
            return Err(e);
        },
    };
    proof {
        vstd::slice::axiom_spec_len::<u8>(t);
        lemma_nth_crlf_bounds(t@, 1, 1);
    }
    let text = copy_range(t, 1, end);
    Ok((SimpleString(text), end + 2))
}

impl RespDecode for SimpleString {
    open spec fn spec_decode(s: Seq<u8>) -> SpecDec<Seq<u8>> {
        spec_dec_simple(s, TAG_SIMPLE)
    }

    open spec fn spec_expect(s: Seq<u8>) -> SpecExp {
        match spec_simple_end(s, TAG_SIMPLE) {
            SpecEnd::End(end) => SpecExp::Len(end + 2),
            SpecEnd::Inc => SpecExp::Inc,
            SpecEnd::FmtType => SpecExp::FmtType,
        }
    }

    fn decode(buf: &mut bytes::BytesMut) -> (r: Result<Self, RespError>) {
        let s = crate::protocol::bytes_buf::buf_bytes(buf);
        match dec_simple_string_at(s) {
            Ok((f, n)) => {
                crate::protocol::bytes_buf::buf_advance(buf, n);
                Ok(f)
            },
            Err(e) => Err(e),
        }
    }

    fn expect_length(buf: &[u8]) -> (r: Result<usize, RespError>) {
        match extract_simple_frame_data(buf, TAG_SIMPLE) {
            Ok(end) => {
                proof {
                    vstd::slice::axiom_spec_len::<u8>(buf);
                    lemma_nth_crlf_bounds(buf@, 1, 1);
                }
                Ok(end + 2)
            },
            Err(e) => Err(e),
        }
    }
}

impl RespEncode for SimpleString {
    open spec fn spec_encoding(&self) -> Seq<u8> {
        enc_frame(FrameV::SimpleString(self.deep_view()))
    }

    fn encode(self) -> (r: Vec<u8>) {
        let mut out: Vec<u8> = Vec::new();
        out.push(TAG_SIMPLE);
        let mut payload = self.0;
        out.append(&mut payload);
        out.push(CR);
        out.push(LF);
        proof {
            assert(out@ =~= seq![TAG_SIMPLE] + self.deep_view() + crlf());
        }
        out
    }
}

} // verus!
