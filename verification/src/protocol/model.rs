//! The mathematical model of the wire format: the view of a frame, the
//! byte-level grammar helpers, and the exact encoding of every frame.

use vstd::prelude::*;
use crate::protocol::{CR, LF};

verus! {

/// The view of a frame: what a decoded value denotes, with byte payloads as
/// sequences. Null bulk strings and null arrays are modelled as `None`
/// payloads, wire-distinct from the generic `Null` marker.
pub enum FrameV {
    SimpleString(Seq<u8>),
    SimpleError(Seq<u8>),
    Integer(i64),
    BulkString(Option<Seq<u8>>),
    Array(Option<Seq<FrameV>>),
    Null,
    Boolean(bool),
    Double(Seq<u8>),
    Pairs(Seq<(FrameV, FrameV)>),
    Members(Seq<FrameV>),
}

/// ASCII decimal digit.
pub open spec fn is_digit(b: u8) -> bool {
    48 <= b <= 57
}

/// Every byte of `s` is a decimal digit.
pub open spec fn all_digits(s: Seq<u8>) -> bool {
    forall|i: int| 0 <= i < s.len() ==> is_digit(#[trigger] s[i])
}

/// Value of a digit string read as a decimal number.
pub open spec fn digits_val(s: Seq<u8>) -> nat
    decreases s.len(),
{
    if s.len() == 0 {
        0
    } else {
        digits_val(s.drop_last()) * 10 + (if s.last() >= 48 { (s.last() - 48) as nat } else { 0 })
    }
}

/// Canonical decimal digit string of `n`: no leading zeros, at least one digit.
pub open spec fn dec_digits(n: nat) -> Seq<u8>
    decreases n,
{
    if n < 10 {
        seq![(n + 48) as u8]
    } else {
        dec_digits(n / 10).push(((n % 10) + 48) as u8)
    }
}

/// Signed decimal text of `n` with an explicit sign for non-negative values.
pub open spec fn int_text(n: int) -> Seq<u8> {
    if n < 0 {
        seq![45u8] + dec_digits((-n) as nat)
    } else {
        seq![43u8] + dec_digits(n as nat)
    }
}

/// No CR LF pair occurs anywhere inside `t`, so `t` can stand between a tag
/// and the terminator of a simple frame.
pub open spec fn text_ok(t: Seq<u8>) -> bool {
    forall|i: int| 0 <= i && i + 1 < t.len() ==> !(#[trigger] t[i] == CR && t[i + 1] == LF)
}

/// First index at or after `i` whose byte is not a decimal digit (or the end).
pub open spec fn digits_end(t: Seq<u8>, i: int) -> int
    decreases t.len() - i,
{
    if i < 0 || i >= t.len() || !is_digit(t[i]) {
        i
    } else {
        digits_end(t, i + 1)
    }
}

/// The double grammar: `[+|-]<digits>[.<digits>][e[+|-]<digits>]`.
pub open spec fn is_double_text(t: Seq<u8>) -> bool {
    let i = if t.len() > 0 && (t[0] == 43 || t[0] == 45) {
        1int
    } else {
        0int
    };
    let j = digits_end(t, i);
    let k = if j < t.len() && t[j] == 46 {
        digits_end(t, j + 1)
    } else {
        j
    };
    j > i && (k == j || k > j + 1) && (k == t.len() || {
        let m = if t[k] == 101 && k + 1 < t.len() && (t[k + 1] == 43 || t[k + 1] == 45) {
            k + 2
        } else {
            k + 1
        };
        t[k] == 101 && digits_end(t, m) == t.len() && t.len() > m
    })
}

/// A frame is representable on the wire: simple texts carry no terminator,
/// double texts obey the double grammar, declared lengths fit the length
/// header, and the rule holds recursively.
pub open spec fn wf_frame(v: FrameV) -> bool
    decreases v,
{
    match v {
        FrameV::SimpleString(t) => text_ok(t),
        FrameV::SimpleError(t) => text_ok(t),
        FrameV::Integer(_) => true,
        FrameV::BulkString(p) => match p {
            Some(b) => b.len() <= usize::MAX,
            None => true,
        },
        FrameV::Array(a) => match a {
            Some(es) => es.len() <= usize::MAX && wf_seq(es),
            None => true,
        },
        FrameV::Null => true,
        FrameV::Boolean(_) => true,
        FrameV::Double(t) => is_double_text(t),
        FrameV::Pairs(ps) => ps.len() <= usize::MAX && wf_pairs(ps),
        FrameV::Members(es) => es.len() <= usize::MAX && wf_seq(es),
    }
}

/// Every frame of `es` is well-formed.
pub open spec fn wf_seq(es: Seq<FrameV>) -> bool
    decreases es,
{
    forall|i: int| 0 <= i < es.len() ==> wf_frame(#[trigger] es[i])
}

/// Every key and value of `ps` is well-formed.
pub open spec fn wf_pairs(ps: Seq<(FrameV, FrameV)>) -> bool
    decreases ps,
{
    forall|i: int| 0 <= i < ps.len() ==> wf_frame((#[trigger] ps[i]).0) && wf_frame(ps[i].1)
}

/// The two-byte terminator as a sequence.
pub open spec fn crlf() -> Seq<u8> {
    seq![CR, LF]
}

/// The exact wire encoding of a frame.
pub open spec fn enc_frame(v: FrameV) -> Seq<u8>
    decreases v, 0int,
{
    match v {
        FrameV::SimpleString(t) => seq![43u8] + t + crlf(),
        FrameV::SimpleError(t) => seq![45u8] + t + crlf(),
        FrameV::Integer(n) => seq![58u8] + int_text(n as int) + crlf(),
        FrameV::BulkString(p) => match p {
            Some(b) => seq![36u8] + dec_digits(b.len()) + crlf() + b + crlf(),
            None => seq![36u8, 45u8, 49u8, CR, LF],
        },
        FrameV::Array(a) => match a {
            Some(es) => seq![42u8] + dec_digits(es.len()) + crlf() + enc_seq(es),
            None => seq![42u8, 45u8, 49u8, CR, LF],
        },
        FrameV::Null => seq![95u8, CR, LF],
        FrameV::Boolean(b) => if b {
            seq![35u8, 116u8, CR, LF]
        } else {
            seq![35u8, 102u8, CR, LF]
        },
        FrameV::Double(t) => seq![44u8] + t + crlf(),
        FrameV::Pairs(ps) => seq![37u8] + dec_digits(ps.len()) + crlf() + enc_pairs(ps),
        FrameV::Members(es) => seq![126u8] + dec_digits(es.len()) + crlf() + enc_seq(es),
    }
}

/// The concatenated encodings of a sequence of frames.
pub open spec fn enc_seq(es: Seq<FrameV>) -> Seq<u8>
    decreases es, 1int,
{
    if es.len() == 0 {
        Seq::empty()
    } else {
        enc_frame(es[0]) + enc_seq(es.skip(1))
    }
}

/// The concatenated encodings of a sequence of key/value pairs.
pub open spec fn enc_pairs(ps: Seq<(FrameV, FrameV)>) -> Seq<u8>
    decreases ps, 1int,
{
    if ps.len() == 0 {
        Seq::empty()
    } else {
        enc_frame(ps[0].0) + enc_frame(ps[0].1) + enc_pairs(ps.skip(1))
    }
}

/// Encoding distributes over concatenation of frame sequences.
pub proof fn lemma_enc_seq_app(a: Seq<FrameV>, b: Seq<FrameV>)
    ensures
        enc_seq(a + b) == enc_seq(a) + enc_seq(b),
    decreases a.len(),
{
    if a.len() == 0 {
        assert(a + b =~= b);
        assert(enc_seq(a) + enc_seq(b) =~= enc_seq(b));
    } else {
        assert((a + b)[0] == a[0]);
        assert((a + b).skip(1) =~= a.skip(1) + b);
        lemma_enc_seq_app(a.skip(1), b);
        assert((a + b).len() != 0);
        assert(enc_seq(a + b) == enc_frame(a[0]) + (enc_seq(a.skip(1)) + enc_seq(b)));
        assert(enc_frame(a[0]) + (enc_seq(a.skip(1)) + enc_seq(b)) =~= (enc_frame(a[0])
            + enc_seq(a.skip(1))) + enc_seq(b));
    }
}

/// The encoding of a single frame as a one-element sequence.
pub proof fn lemma_enc_seq_one(v: FrameV)
    ensures
        enc_seq(seq![v]) == enc_frame(v),
{
    assert(seq![v].skip(1) =~= Seq::<FrameV>::empty());
    assert(enc_seq(Seq::<FrameV>::empty()) == Seq::<u8>::empty());
    assert(enc_frame(v) + Seq::<u8>::empty() =~= enc_frame(v));
}

/// Encoding distributes over concatenation of pair sequences.
pub proof fn lemma_enc_pairs_app(a: Seq<(FrameV, FrameV)>, b: Seq<(FrameV, FrameV)>)
    ensures
        enc_pairs(a + b) == enc_pairs(a) + enc_pairs(b),
    decreases a.len(),
{
    if a.len() == 0 {
        assert(a + b =~= b);
        assert(enc_pairs(a) + enc_pairs(b) =~= enc_pairs(b));
    } else {
        assert((a + b)[0] == a[0]);
        assert((a + b).skip(1) =~= a.skip(1) + b);
        lemma_enc_pairs_app(a.skip(1), b);
        assert((a + b).len() != 0);
        assert(enc_pairs(a + b) == enc_frame(a[0].0) + enc_frame(a[0].1) + (enc_pairs(a.skip(1))
            + enc_pairs(b)));
        assert(enc_frame(a[0].0) + enc_frame(a[0].1) + (enc_pairs(a.skip(1)) + enc_pairs(b)) =~= (
        enc_frame(a[0].0) + enc_frame(a[0].1) + enc_pairs(a.skip(1))) + enc_pairs(b));
    }
}

/// The encoding of a single pair as a one-element sequence.
pub proof fn lemma_enc_pairs_one(kv: (FrameV, FrameV))
    ensures
        enc_pairs(seq![kv]) == enc_frame(kv.0) + enc_frame(kv.1),
{
    assert(seq![kv].skip(1) =~= Seq::<(FrameV, FrameV)>::empty());
    assert(enc_pairs(Seq::<(FrameV, FrameV)>::empty()) == Seq::<u8>::empty());
    assert(enc_frame(kv.0) + enc_frame(kv.1) + Seq::<u8>::empty() =~= enc_frame(kv.0)
        + enc_frame(kv.1));
}

} // verus!
