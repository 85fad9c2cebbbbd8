//! The laws of the codec: decoding inverts encoding byte-exactly, every
//! strict prefix of a frame's encoding reads as incomplete, the three null
//! forms are pairwise wire-distinct, and the span predictor never disagrees
//! with the decoder about completeness.

use vstd::prelude::*;
use crate::protocol::decspec::{
    null_array_lit, null_bulk_lit, spec_dec_array, spec_dec_bulk, spec_dec_elems, spec_dec_frame,
    spec_dec_pairs, spec_exp_elems, spec_exp_frame, spec_parse_i64, spec_parse_usize,
    spec_simple_end,
};
use crate::protocol::model::{
    all_digits, crlf, dec_digits, digits_end, digits_val, enc_frame, enc_pairs, enc_seq,
    int_text, is_digit, is_double_text, text_ok, wf_frame, wf_pairs, wf_seq, FrameV,
};
use crate::protocol::num::lemma_dec_digits;
use crate::protocol::{
    crlf_at, first_crlf_from, lemma_nth_crlf_bounds, nth_crlf_from, SpecDec, SpecEnd, SpecExp,
    CR, LF, TAG_ARRAY, TAG_BOOL, TAG_BULK, TAG_DOUBLE, TAG_ERROR, TAG_INTEGER, TAG_MAP,
    TAG_NULL, TAG_SET, TAG_SIMPLE,
};

verus! {

/// When a terminator stands at `e` and none stands earlier, the scan from
/// `start` finds exactly `e`.
pub proof fn lemma_first_crlf_found(s: Seq<u8>, start: int, e: int)
    requires
        0 <= start <= e,
        crlf_at(s, e),
        forall|j: int| start <= j < e ==> !crlf_at(s, j),
    ensures
        first_crlf_from(s, start) == Some(e),
    decreases e - start,
{
    if start == e {
    } else {
        assert(!crlf_at(s, start));
        lemma_first_crlf_found(s, start + 1, e);
    }
}

/// Every byte from `a` up to the digit run's end is a digit.
pub proof fn lemma_digits_end_range(t: Seq<u8>, a: int)
    requires
        0 <= a <= t.len(),
    ensures
        a <= digits_end(t, a) <= t.len(),
        forall|i: int| a <= i < digits_end(t, a) ==> is_digit(#[trigger] t[i]),
    decreases t.len() - a,
{
    if a < t.len() && is_digit(t[a]) {
        lemma_digits_end_range(t, a + 1);
    }
}

/// Text in the double grammar contains no carriage return, so its first
/// terminator is the one that ends the frame.
pub proof fn lemma_double_no_cr(t: Seq<u8>)
    requires
        is_double_text(t),
    ensures
        forall|i: int| 0 <= i < t.len() ==> #[trigger] t[i] != CR,
{
    let i0: int = if t.len() > 0 && (t[0] == 43 || t[0] == 45) {
        1int
    } else {
        0int
    };
    let j = digits_end(t, i0);
    lemma_digits_end_range(t, i0);
    let k: int = if j < t.len() && t[j] == 46 {
        digits_end(t, j + 1)
    } else {
        j
    };
    if j < t.len() && t[j] == 46 {
        lemma_digits_end_range(t, j + 1);
    }
    if k < t.len() {
        let m: int = if t[k] == 101 && k + 1 < t.len() && (t[k + 1] == 43 || t[k + 1] == 45) {
            k + 2
        } else {
            k + 1
        };
        lemma_digits_end_range(t, m);
    }
    assert forall|i: int| 0 <= i < t.len() implies #[trigger] t[i] != CR by {
        if i < i0 {
        } else if i < j {
        } else if i == j && j < k {
        } else if i < k {
        } else {
        }
    }
}

/// A byte sequence without carriage returns holds no terminator pair.
pub proof fn lemma_no_cr_text_ok(t: Seq<u8>)
    requires
        forall|i: int| 0 <= i < t.len() ==> #[trigger] t[i] != CR,
    ensures
        text_ok(t),
{
}

/// Digits hold no carriage return.
pub proof fn lemma_digits_no_cr(t: Seq<u8>)
    requires
        all_digits(t),
    ensures
        forall|i: int| 0 <= i < t.len() ==> #[trigger] t[i] != CR,
        text_ok(t),
{
}

/// The shape of a simple frame: for a tag, terminator-free text, the
/// terminator, and trailing bytes, the frame's end is found exactly after
/// the text, and the text is read back verbatim.
pub proof fn lemma_simple_shape(tag: u8, t: Seq<u8>, rest: Seq<u8>)
    requires
        text_ok(t),
    ensures
        ({
            let s = seq![tag] + t + crlf() + rest;
            spec_simple_end(s, tag) == SpecEnd::End(1 + t.len() as int) && s.subrange(
                1,
                1 + t.len() as int,
            ) == t
        }),
{
    let s = seq![tag] + t + crlf() + rest;
    let e = 1 + t.len() as int;
    assert(s.len() == 3 + t.len() + rest.len());
    assert(s[0] == tag);
    assert(s[e] == CR);
    assert(s[e + 1] == LF);
    assert(crlf_at(s, e));
    assert forall|j: int| 1 <= j < e implies !crlf_at(s, j) by {
        if j + 1 < e {
            assert(s[j] == t[j - 1]);
            assert(s[j + 1] == t[j]);
        } else {
            assert(s[j] == t[j - 1]);
            assert(s[j + 1] == CR);
        }
    }
    lemma_first_crlf_found(s, 1, e);
    assert(s.subrange(1, e) =~= t);
}

} // verus!

verus! {

/// The signed decimal text of a value holds no carriage return.
pub proof fn lemma_int_text_no_cr(n: int)
    ensures
        text_ok(int_text(n)),
        int_text(n).len() >= 2,
        all_digits(int_text(n).skip(1)),
        int_text(n)[0] == 43 || int_text(n)[0] == 45,
{
    let mag: nat = if n < 0 {
        (-n) as nat
    } else {
        n as nat
    };
    lemma_dec_digits(mag);
    assert(int_text(n).skip(1) =~= dec_digits(mag));
    assert forall|i: int| 0 <= i < int_text(n).len() implies #[trigger] int_text(n)[i] != CR by {
        if i >= 1 {
            assert(int_text(n)[i] == dec_digits(mag)[i - 1]);
            assert(is_digit(dec_digits(mag)[i - 1]));
        }
    }
    lemma_no_cr_text_ok(int_text(n));
}

/// Decoding an encoded integer frame yields the value back.
proof fn lemma_dec_enc_integer(n: i64, rest: Seq<u8>)
    ensures
        spec_dec_frame(enc_frame(FrameV::Integer(n)) + rest) == SpecDec::Val(
            FrameV::Integer(n),
            enc_frame(FrameV::Integer(n)).len() as int,
        ),
{
    let t = int_text(n as int);
    lemma_int_text_no_cr(n as int);
    let s = enc_frame(FrameV::Integer(n)) + rest;
    assert(s =~= seq![TAG_INTEGER] + t + crlf() + rest);
    lemma_simple_shape(TAG_INTEGER, t, rest);
    let e = 1 + t.len() as int;
    let mag: nat = if n < 0 {
        (-n) as nat
    } else {
        n as nat
    };
    lemma_dec_digits(mag);
    assert(t.skip(1) =~= dec_digits(mag));
    assert(spec_parse_i64(t) == Some(n));
    assert(s[0] == TAG_INTEGER);
    assert(e + 2 == enc_frame(FrameV::Integer(n)).len());
}

/// Decoding an encoded simple string or simple error frame yields the text
/// back.
proof fn lemma_dec_enc_text(v: FrameV, rest: Seq<u8>)
    requires
        wf_frame(v),
        v is SimpleString || v is SimpleError || v is Double,
    ensures
        spec_dec_frame(enc_frame(v) + rest) == SpecDec::Val(v, enc_frame(v).len() as int),
{
    let s = enc_frame(v) + rest;
    match v {
        FrameV::SimpleString(t) => {
            assert(s =~= seq![TAG_SIMPLE] + t + crlf() + rest);
            lemma_simple_shape(TAG_SIMPLE, t, rest);
            assert(s[0] == TAG_SIMPLE);
        },
        FrameV::SimpleError(t) => {
            assert(s =~= seq![TAG_ERROR] + t + crlf() + rest);
            lemma_simple_shape(TAG_ERROR, t, rest);
            assert(s[0] == TAG_ERROR);
        },
        FrameV::Double(t) => {
            lemma_double_no_cr(t);
            lemma_no_cr_text_ok(t);
            assert(s =~= seq![TAG_DOUBLE] + t + crlf() + rest);
            lemma_simple_shape(TAG_DOUBLE, t, rest);
            assert(s[0] == TAG_DOUBLE);
        },
        _ => {},
    }
}

/// Decoding an encoded boolean, generic null, or null bulk/array literal
/// yields the value back.
proof fn lemma_dec_enc_literal(v: FrameV, rest: Seq<u8>)
    requires
        v is Boolean || v is Null || v == FrameV::BulkString(Option::<Seq<u8>>::None) || v
            == FrameV::Array(Option::<Seq<FrameV>>::None),
    ensures
        spec_dec_frame(enc_frame(v) + rest) == SpecDec::Val(v, enc_frame(v).len() as int),
{
    let s = enc_frame(v) + rest;
    match v {
        FrameV::Boolean(b) => {
            assert(s[0] == TAG_BOOL);
            if b {
                assert(s[1] == 116u8);
            } else {
                assert(s[1] == 102u8);
            }
            assert(s[2] == CR);
            assert(s[3] == LF);
        },
        FrameV::Null => {
            assert(s[0] == TAG_NULL);
            assert(s[1] == CR);
            assert(s[2] == LF);
        },
        FrameV::BulkString(p) => {
            assert(s.len() >= 5);
            assert(s.subrange(0, 5) =~= null_bulk_lit());
            assert(s[0] == TAG_BULK);
        },
        FrameV::Array(a) => {
            assert(s.len() >= 5);
            assert(s.subrange(0, 5) =~= null_array_lit());
            assert(s[0] == TAG_ARRAY);
        },
        _ => {},
    }
}

/// Decoding an encoded present bulk string yields the payload back.
proof fn lemma_dec_enc_bulk(p: Seq<u8>, rest: Seq<u8>)
    requires
        p.len() <= usize::MAX,
    ensures
        spec_dec_frame(enc_frame(FrameV::BulkString(Some(p))) + rest) == SpecDec::Val(
            FrameV::BulkString(Some(p)),
            enc_frame(FrameV::BulkString(Some(p))).len() as int,
        ),
{
    let dd = dec_digits(p.len());
    lemma_dec_digits(p.len());
    lemma_digits_no_cr(dd);
    let s = enc_frame(FrameV::BulkString(Some(p))) + rest;
    assert(s =~= seq![TAG_BULK] + dd + crlf() + (p + crlf() + rest));
    lemma_simple_shape(TAG_BULK, dd, p + crlf() + rest);
    let e = 1 + dd.len() as int;
    assert(s[1] == dd[0]);
    assert(is_digit(dd[0]));
    if s.len() >= 5 && s.subrange(0, 5) == null_bulk_lit() {
        assert(s.subrange(0, 5)[1] == s[1]);
        assert(false);
    }
    assert(spec_parse_usize(dd) == Some(p.len() as int));
    assert(s.len() == e + 2 + p.len() + 2 + rest.len());
    assert(s[e + 2 + p.len()] == CR);
    assert(s[e + 2 + p.len() + 1] == LF);
    assert(s.subrange(e + 2, e + 2 + p.len() as int) =~= p);
    assert(s[0] == TAG_BULK);
    assert(e + 2 + p.len() + 2 == enc_frame(FrameV::BulkString(Some(p))).len());
}

/// Decoding the encoding of a well-formed frame, with any trailing bytes,
/// yields exactly that frame and consumes exactly its encoding.
pub proof fn lemma_dec_enc(v: FrameV, rest: Seq<u8>)
    requires
        wf_frame(v),
    ensures
        spec_dec_frame(enc_frame(v) + rest) == SpecDec::Val(v, enc_frame(v).len() as int),
    decreases v, 0int,
{
    let s = enc_frame(v) + rest;
    match v {
        FrameV::SimpleString(t) => {
            lemma_dec_enc_text(v, rest);
        },
        FrameV::SimpleError(t) => {
            lemma_dec_enc_text(v, rest);
        },
        FrameV::Double(t) => {
            lemma_dec_enc_text(v, rest);
        },
        FrameV::Integer(n) => {
            lemma_dec_enc_integer(n, rest);
        },
        FrameV::Boolean(b) => {
            lemma_dec_enc_literal(v, rest);
        },
        FrameV::Null => {
            lemma_dec_enc_literal(v, rest);
        },
        FrameV::BulkString(p) => {
            match p {
                Some(b) => {
                    lemma_dec_enc_bulk(b, rest);
                },
                None => {
                    lemma_dec_enc_literal(v, rest);
                },
            }
        },
        FrameV::Array(a) => {
            match a {
                None => {
                    lemma_dec_enc_literal(v, rest);
                },
                Some(es) => {
                    let dd = dec_digits(es.len());
                    lemma_dec_digits(es.len());
                    lemma_digits_no_cr(dd);
                    assert(s =~= seq![TAG_ARRAY] + dd + crlf() + (enc_seq(es) + rest));
                    lemma_simple_shape(TAG_ARRAY, dd, enc_seq(es) + rest);
                    let e = 1 + dd.len() as int;
                    assert(s[1] == dd[0]);
                    assert(is_digit(dd[0]));
                    if s.len() >= 5 && s.subrange(0, 5) == null_array_lit() {
                        assert(s.subrange(0, 5)[1] == s[1]);
                        assert(false);
                    }
                    assert(spec_parse_usize(dd) == Some(es.len() as int));
                    assert(s.skip(e + 2) =~= enc_seq(es) + rest);
                    lemma_dec_enc_seq(es, rest);
                    assert(s[0] == TAG_ARRAY);
                    assert(e + 2 + enc_seq(es).len() == enc_frame(v).len());
                },
            }
        },
        FrameV::Members(es) => {
            let dd = dec_digits(es.len());
            lemma_dec_digits(es.len());
            lemma_digits_no_cr(dd);
            assert(s =~= seq![TAG_SET] + dd + crlf() + (enc_seq(es) + rest));
            lemma_simple_shape(TAG_SET, dd, enc_seq(es) + rest);
            let e = 1 + dd.len() as int;
            assert(spec_parse_usize(dd) == Some(es.len() as int));
            assert(s.skip(e + 2) =~= enc_seq(es) + rest);
            lemma_dec_enc_seq(es, rest);
            assert(s[0] == TAG_SET);
            assert(e + 2 + enc_seq(es).len() == enc_frame(v).len());
        },
        FrameV::Pairs(ps) => {
            let dd = dec_digits(ps.len());
            lemma_dec_digits(ps.len());
            lemma_digits_no_cr(dd);
            assert(s =~= seq![TAG_MAP] + dd + crlf() + (enc_pairs(ps) + rest));
            lemma_simple_shape(TAG_MAP, dd, enc_pairs(ps) + rest);
            let e = 1 + dd.len() as int;
            assert(spec_parse_usize(dd) == Some(ps.len() as int));
            assert(s.skip(e + 2) =~= enc_pairs(ps) + rest);
            lemma_dec_enc_pairs(ps, rest);
            assert(s[0] == TAG_MAP);
            assert(e + 2 + enc_pairs(ps).len() == enc_frame(v).len());
        },
    }
}

/// Decoding the concatenated encodings of well-formed frames, with any
/// trailing bytes, yields exactly those frames.
pub proof fn lemma_dec_enc_seq(es: Seq<FrameV>, rest: Seq<u8>)
    requires
        wf_seq(es),
    ensures
        spec_dec_elems(enc_seq(es) + rest, es.len()) == SpecDec::Val(
            es,
            enc_seq(es).len() as int,
        ),
    decreases es, 1int,
{
    if es.len() == 0 {
        assert(enc_seq(es) + rest =~= rest);
        assert(es =~= Seq::<FrameV>::empty());
    } else {
        let s = enc_seq(es) + rest;
        let tail = es.skip(1);
        assert(s =~= enc_frame(es[0]) + (enc_seq(tail) + rest));
        assert(wf_frame(es[0]));
        lemma_dec_enc(es[0], enc_seq(tail) + rest);
        let n0 = enc_frame(es[0]).len() as int;
        assert(s.skip(n0) =~= enc_seq(tail) + rest);
        assert(wf_seq(tail));
        lemma_dec_enc_seq(tail, rest);
        assert(seq![es[0]] + tail =~= es);
        assert(n0 + enc_seq(tail).len() == enc_seq(es).len());
    }
}

/// Decoding the concatenated encodings of well-formed pairs, with any
/// trailing bytes, yields exactly those pairs.
pub proof fn lemma_dec_enc_pairs(ps: Seq<(FrameV, FrameV)>, rest: Seq<u8>)
    requires
        wf_pairs(ps),
    ensures
        spec_dec_pairs(enc_pairs(ps) + rest, ps.len()) == SpecDec::Val(
            ps,
            enc_pairs(ps).len() as int,
        ),
    decreases ps, 1int,
{
    if ps.len() == 0 {
        assert(enc_pairs(ps) + rest =~= rest);
        assert(ps =~= Seq::<(FrameV, FrameV)>::empty());
    } else {
        let s = enc_pairs(ps) + rest;
        let tail = ps.skip(1);
        let k = ps[0].0;
        let w = ps[0].1;
        assert(s =~= enc_frame(k) + (enc_frame(w) + (enc_pairs(tail) + rest)));
        assert(wf_frame(k) && wf_frame(w));
        lemma_dec_enc(k, enc_frame(w) + (enc_pairs(tail) + rest));
        let n0 = enc_frame(k).len() as int;
        assert(s.skip(n0) =~= enc_frame(w) + (enc_pairs(tail) + rest));
        lemma_dec_enc(w, enc_pairs(tail) + rest);
        let n1 = enc_frame(w).len() as int;
        assert(s.skip(n0 + n1) =~= enc_pairs(tail) + rest);
        assert(wf_pairs(tail));
        lemma_dec_enc_pairs(tail, rest);
        assert(seq![(k, w)] + tail =~= ps);
        assert(n0 + n1 + enc_pairs(tail).len() == enc_pairs(ps).len());
    }
}

} // verus!

verus! {

/// A byte sequence some well-formed frame encodes to exactly.
pub open spec fn canonical_encoding(s: Seq<u8>) -> bool {
    exists|v: FrameV| wf_frame(v) && enc_frame(v) == s
}

/// Round trip: decoding the encoding of any well-formed frame yields that
/// frame back and consumes the whole encoding.
pub proof fn lemma_round_trip(v: FrameV)
    requires
        wf_frame(v),
    ensures
        spec_dec_frame(enc_frame(v)) == SpecDec::Val(v, enc_frame(v).len() as int),
{
    lemma_dec_enc(v, Seq::empty());
    assert(enc_frame(v) + Seq::<u8>::empty() =~= enc_frame(v));
}

/// Round trip the other way: a canonical byte sequence decodes to a frame
/// whose encoding is exactly those bytes again.
pub proof fn lemma_enc_dec(s: Seq<u8>)
    requires
        canonical_encoding(s),
    ensures
        spec_dec_frame(s) matches SpecDec::Val(v, n) && n == s.len() && enc_frame(v) == s
            && wf_frame(v),
{
    let v = choose|v: FrameV| wf_frame(v) && enc_frame(v) == s;
    lemma_round_trip(v);
}

/// The generic null frame, the null bulk string, and the null array are
/// three distinct values with three distinct wire forms, and the null
/// containers differ from their empty forms.
pub proof fn lemma_null_distinct()
    ensures
        FrameV::Null != FrameV::BulkString(Option::<Seq<u8>>::None),
        FrameV::Null != FrameV::Array(Option::<Seq<FrameV>>::None),
        FrameV::BulkString(Option::<Seq<u8>>::None) != FrameV::Array(
            Option::<Seq<FrameV>>::None,
        ),
        enc_frame(FrameV::Null) != enc_frame(FrameV::BulkString(Option::<Seq<u8>>::None)),
        enc_frame(FrameV::Null) != enc_frame(FrameV::Array(Option::<Seq<FrameV>>::None)),
        enc_frame(FrameV::BulkString(Option::<Seq<u8>>::None)) != enc_frame(
            FrameV::Array(Option::<Seq<FrameV>>::None),
        ),
        enc_frame(FrameV::BulkString(Option::<Seq<u8>>::None)) != enc_frame(
            FrameV::BulkString(Some(Seq::<u8>::empty())),
        ),
        enc_frame(FrameV::Array(Option::<Seq<FrameV>>::None)) != enc_frame(
            FrameV::Array(Some(Seq::<FrameV>::empty())),
        ),
{
    let null_enc = enc_frame(FrameV::Null);
    let bulk_null = enc_frame(FrameV::BulkString(Option::<Seq<u8>>::None));
    let arr_null = enc_frame(FrameV::Array(Option::<Seq<FrameV>>::None));
    assert(null_enc[0] == TAG_NULL);
    assert(bulk_null[0] == TAG_BULK);
    assert(arr_null[0] == TAG_ARRAY);
    let bulk_empty = enc_frame(FrameV::BulkString(Some(Seq::<u8>::empty())));
    assert(dec_digits(0) =~= seq![48u8]);
    assert(bulk_empty[1] == 48u8);
    assert(bulk_null[1] == 45u8);
    let arr_empty = enc_frame(FrameV::Array(Some(Seq::<FrameV>::empty())));
    assert(arr_empty[1] == 48u8);
    assert(arr_null[1] == 45u8);
}

} // verus!

verus! {

/// When no terminator pair stands anywhere at or after `start`, the scan
/// finds none.
pub proof fn lemma_no_crlf_none(s: Seq<u8>, start: int)
    requires
        forall|j: int| start <= j ==> !crlf_at(s, j),
    ensures
        first_crlf_from(s, start) is None,
    decreases s.len() - start,
{
    if start >= 0 && start + 1 < s.len() {
        assert(!crlf_at(s, start));
        lemma_no_crlf_none(s, start + 1);
    }
}

/// A strict prefix of a simple frame's wire form has no terminator, so its
/// end is never found.
proof fn lemma_prefix_simple_end(tag: u8, t: Seq<u8>, k: int)
    requires
        text_ok(t),
        0 <= k < (seq![tag] + t + crlf()).len(),
    ensures
        spec_simple_end((seq![tag] + t + crlf()).take(k), tag) == SpecEnd::Inc,
{
    let s = seq![tag] + t + crlf();
    let p = s.take(k);
    if k < 3 {
    } else {
        assert(p[0] == tag);
        assert forall|j: int| 1 <= j implies !crlf_at(p, j) by {
            if j + 1 < k {
                assert(p[j] == s[j]);
                assert(p[j + 1] == s[j + 1]);
                if j + 1 < 1 + t.len() {
                    assert(s[j] == t[j - 1]);
                    assert(s[j + 1] == t[j]);
                } else if j + 1 == 1 + t.len() {
                    assert(s[j + 1] == CR);
                } else {
                    assert(j >= 1 + t.len());
                    assert(j + 1 < k <= t.len() + 2);
                    assert(false);
                }
            }
        }
        lemma_no_crlf_none(p, 1);
    }
}

/// Every strict prefix of a well-formed frame's encoding decodes as
/// incomplete: the decoder never produces a value, and never an error, from
/// a partial frame.
pub proof fn lemma_prefix_incomplete(v: FrameV, k: int)
    requires
        wf_frame(v),
        0 <= k < enc_frame(v).len(),
    ensures
        spec_dec_frame(enc_frame(v).take(k)) == SpecDec::<FrameV>::Inc,
    decreases v, 0int,
{
    let s = enc_frame(v);
    let p = s.take(k);
    if k == 0 {
        assert(p.len() == 0);
    } else {
        assert(p[0] == s[0]);
        match v {
            FrameV::SimpleString(t) => {
                assert(s =~= seq![TAG_SIMPLE] + t + crlf());
                lemma_prefix_simple_end(TAG_SIMPLE, t, k);
            },
            FrameV::SimpleError(t) => {
                assert(s =~= seq![TAG_ERROR] + t + crlf());
                lemma_prefix_simple_end(TAG_ERROR, t, k);
            },
            FrameV::Double(t) => {
                lemma_double_no_cr(t);
                lemma_no_cr_text_ok(t);
                assert(s =~= seq![TAG_DOUBLE] + t + crlf());
                lemma_prefix_simple_end(TAG_DOUBLE, t, k);
            },
            FrameV::Integer(n) => {
                let t = int_text(n as int);
                lemma_int_text_no_cr(n as int);
                assert(s =~= seq![TAG_INTEGER] + t + crlf());
                lemma_prefix_simple_end(TAG_INTEGER, t, k);
            },
            FrameV::Boolean(b) => {
                assert(p.len() < 4);
            },
            FrameV::Null => {
                assert(p.len() < 3);
            },
            FrameV::BulkString(po) => {
                match po {
                    None => {
                        lemma_prefix_null_lit(TAG_BULK, k);
                        assert(spec_dec_bulk(p) == SpecDec::<Option<Seq<u8>>>::Inc);
                    },
                    Some(b) => {
                        lemma_prefix_bulk(b, k);
                    },
                }
            },
            FrameV::Array(a) => {
                match a {
                    None => {
                        lemma_prefix_null_lit(TAG_ARRAY, k);
                    },
                    Some(es) => {
                        lemma_prefix_composite_header(TAG_ARRAY, es.len(), enc_seq(es), k);
                        let dd = dec_digits(es.len());
                        let hdr = 3 + dd.len() as int;
                        if k >= hdr {
                            assert(p.skip(hdr) =~= enc_seq(es).take(k - hdr));
                            lemma_prefix_inc_seq(es, k - hdr);
                        }
                    },
                }
            },
            FrameV::Members(es) => {
                lemma_prefix_composite_header(TAG_SET, es.len(), enc_seq(es), k);
                let dd = dec_digits(es.len());
                let hdr = 3 + dd.len() as int;
                if k >= hdr {
                    assert(p.skip(hdr) =~= enc_seq(es).take(k - hdr));
                    lemma_prefix_inc_seq(es, k - hdr);
                }
            },
            FrameV::Pairs(ps) => {
                lemma_prefix_composite_header(TAG_MAP, ps.len(), enc_pairs(ps), k);
                let dd = dec_digits(ps.len());
                let hdr = 3 + dd.len() as int;
                if k >= hdr {
                    assert(p.skip(hdr) =~= enc_pairs(ps).take(k - hdr));
                    lemma_prefix_inc_pairs(ps, k - hdr);
                }
            },
        }
    }
}

/// A strict prefix of a five-byte null literal is never the literal, never
/// a complete header, and so always incomplete.
proof fn lemma_prefix_null_lit(tag: u8, k: int)
    requires
        tag == TAG_BULK || tag == TAG_ARRAY,
        0 < k < 5,
    ensures
        tag == TAG_BULK ==> spec_dec_bulk(seq![tag, 45u8, 49u8, CR, LF].take(k)) == SpecDec::<
            Option<Seq<u8>>,
        >::Inc,
        tag == TAG_ARRAY ==> spec_dec_array(seq![tag, 45u8, 49u8, CR, LF].take(k)) == SpecDec::<
            Option<Seq<FrameV>>,
        >::Inc,
        spec_dec_frame(seq![tag, 45u8, 49u8, CR, LF].take(k)) == SpecDec::<FrameV>::Inc,
{
    let s = seq![tag, 45u8, 49u8, CR, LF];
    let p = s.take(k);
    assert(p.len() == k);
    if k >= 3 {
        assert forall|j: int| 1 <= j implies !crlf_at(p, j) by {
            if j + 1 < k {
                assert(p[j] == s[j]);
                assert(p[j + 1] == s[j + 1]);
            }
        }
        lemma_no_crlf_none(p, 1);
    }
}

/// A strict prefix of a counted composite frame, cut inside the count
/// header, is incomplete; cut past the header, the count parses and what
/// follows is a prefix of the nested frames' bytes.
proof fn lemma_prefix_composite_header(tag: u8, count: nat, payload: Seq<u8>, k: int)
    requires
        count <= usize::MAX,
        0 < k < (seq![tag] + dec_digits(count) + crlf() + payload).len(),
    ensures
        ({
            let s = seq![tag] + dec_digits(count) + crlf() + payload;
            let p = s.take(k);
            let hdr = 3 + dec_digits(count).len() as int;
            (k < hdr ==> spec_simple_end(p, tag) == SpecEnd::Inc && !(p.len() >= 5 && p.subrange(
                0,
                5,
            ) == seq![tag, 45u8, 49u8, CR, LF])) && (k >= hdr ==> spec_simple_end(p, tag)
                == SpecEnd::End(hdr - 2) && spec_parse_usize(p.subrange(1, hdr - 2)) == Some(
                count as int,
            ) && !(p.len() >= 5 && p.subrange(0, 5) == seq![tag, 45u8, 49u8, CR, LF]))
        }),
{
    let dd = dec_digits(count);
    lemma_dec_digits(count);
    lemma_digits_no_cr(dd);
    let s = seq![tag] + dd + crlf() + payload;
    let p = s.take(k);
    let hdr = 3 + dd.len() as int;
    assert(p[0] == tag);
    if p.len() >= 5 && p.subrange(0, 5) == seq![tag, 45u8, 49u8, CR, LF] {
        assert(p.subrange(0, 5)[1] == p[1]);
        assert(p[1] == dd[0]);
        assert(is_digit(dd[0]));
        assert(false);
    }
    if k < hdr {
        if k >= 3 {
            assert forall|j: int| 1 <= j implies !crlf_at(p, j) by {
                if j + 1 < k {
                    assert(j + 1 <= dd.len() + 1);
                    assert(1 <= j && j <= dd.len());
                    assert(p[j] == s[j]);
                    assert(s[j] == dd[j - 1]);
                    assert(is_digit(dd[j - 1]));
                }
            }
            lemma_no_crlf_none(p, 1);
        }
    } else {
        let e = hdr - 2;
        assert(p[e] == s[e]);
        assert(s[e] == CR);
        assert(p[e + 1] == s[e + 1]);
        assert(s[e + 1] == LF);
        assert(crlf_at(p, e));
        assert forall|j: int| 1 <= j < e implies !crlf_at(p, j) by {
            assert(p[j] == s[j]);
            assert(s[j] == dd[j - 1]);
            assert(is_digit(dd[j - 1]));
        }
        lemma_first_crlf_found(p, 1, e);
        assert(p.subrange(1, e) =~= dd);
    }
}

/// A strict prefix of a present bulk string's encoding is incomplete.
proof fn lemma_prefix_bulk(b: Seq<u8>, k: int)
    requires
        b.len() <= usize::MAX,
        0 < k < enc_frame(FrameV::BulkString(Some(b))).len(),
    ensures
        spec_dec_bulk(enc_frame(FrameV::BulkString(Some(b))).take(k)) == SpecDec::<
            Option<Seq<u8>>,
        >::Inc,
{
    let dd = dec_digits(b.len());
    lemma_dec_digits(b.len());
    lemma_digits_no_cr(dd);
    let s = enc_frame(FrameV::BulkString(Some(b)));
    assert(s =~= seq![TAG_BULK] + dd + crlf() + (b + crlf()));
    lemma_prefix_composite_header(TAG_BULK, b.len(), b + crlf(), k);
    let p = s.take(k);
    let hdr = 3 + dd.len() as int;
    if k >= hdr {
        assert(p.len() == k);
        assert(k < hdr + b.len() + 2);
    }
}

/// A strict prefix of the concatenated encodings of well-formed frames
/// decodes as incomplete when all of them are still expected.
pub proof fn lemma_prefix_inc_seq(es: Seq<FrameV>, k: int)
    requires
        wf_seq(es),
        0 <= k < enc_seq(es).len(),
    ensures
        spec_dec_elems(enc_seq(es).take(k), es.len()) == SpecDec::<Seq<FrameV>>::Inc,
    decreases es, 1int,
{
    assert(es.len() != 0);
    let n0 = enc_frame(es[0]).len() as int;
    let tail = es.skip(1);
    let p = enc_seq(es).take(k);
    assert(wf_frame(es[0]));
    assert(wf_seq(tail));
    if k < n0 {
        assert(p =~= enc_frame(es[0]).take(k));
        lemma_prefix_incomplete(es[0], k);
    } else {
        assert(p =~= enc_frame(es[0]) + enc_seq(tail).take(k - n0));
        lemma_dec_enc(es[0], enc_seq(tail).take(k - n0));
        assert(p.skip(n0) =~= enc_seq(tail).take(k - n0));
        if k == n0 {
            if tail.len() == 0 {
                assert(enc_seq(tail) == Seq::<u8>::empty());
                assert(false);
            }
            assert(p.skip(n0) =~= Seq::<u8>::empty());
            assert(spec_dec_frame(Seq::<u8>::empty()) == SpecDec::<FrameV>::Inc);
            assert(spec_dec_elems(Seq::<u8>::empty(), (es.len() - 1) as nat) == SpecDec::<
                Seq<FrameV>,
            >::Inc);
        } else {
            lemma_prefix_inc_seq(tail, k - n0);
        }
    }
}

/// A strict prefix of the concatenated encodings of well-formed pairs
/// decodes as incomplete when all of them are still expected.
pub proof fn lemma_prefix_inc_pairs(ps: Seq<(FrameV, FrameV)>, k: int)
    requires
        wf_pairs(ps),
        0 <= k < enc_pairs(ps).len(),
    ensures
        spec_dec_pairs(enc_pairs(ps).take(k), ps.len()) == SpecDec::<Seq<(FrameV, FrameV)>>::Inc,
    decreases ps, 1int,
{
    assert(ps.len() != 0);
    let kf = ps[0].0;
    let wf = ps[0].1;
    let n0 = enc_frame(kf).len() as int;
    let n1 = enc_frame(wf).len() as int;
    let tail = ps.skip(1);
    let p = enc_pairs(ps).take(k);
    assert(wf_frame(kf) && wf_frame(wf));
    assert(wf_pairs(tail));
    if k < n0 {
        assert(p =~= enc_frame(kf).take(k));
        lemma_prefix_incomplete(kf, k);
    } else {
        assert(p =~= enc_frame(kf) + (enc_frame(wf) + enc_pairs(tail)).take(k - n0));
        lemma_dec_enc(kf, (enc_frame(wf) + enc_pairs(tail)).take(k - n0));
        assert(p.skip(n0) =~= (enc_frame(wf) + enc_pairs(tail)).take(k - n0));
        if k < n0 + n1 {
            assert(p.skip(n0) =~= enc_frame(wf).take(k - n0));
            if k == n0 {
                assert(p.skip(n0) =~= Seq::<u8>::empty());
                assert(spec_dec_frame(Seq::<u8>::empty()) == SpecDec::<FrameV>::Inc);
            } else {
                lemma_prefix_incomplete(wf, k - n0);
            }
        } else {
            assert(p.skip(n0) =~= enc_frame(wf) + enc_pairs(tail).take(k - n0 - n1));
            lemma_dec_enc(wf, enc_pairs(tail).take(k - n0 - n1));
            assert(p.skip(n0 + n1) =~= enc_pairs(tail).take(k - n0 - n1));
            if k == n0 + n1 {
                if tail.len() == 0 {
                    assert(enc_pairs(tail) == Seq::<u8>::empty());
                    assert(false);
                }
                assert(p.skip(n0 + n1) =~= Seq::<u8>::empty());
                assert(spec_dec_frame(Seq::<u8>::empty()) == SpecDec::<FrameV>::Inc);
                assert(spec_dec_pairs(Seq::<u8>::empty(), (ps.len() - 1) as nat) == SpecDec::<
                    Seq<(FrameV, FrameV)>,
                >::Inc);
            } else {
                lemma_prefix_inc_pairs(tail, k - n0 - n1);
            }
        }
    }
}

} // verus!

verus! {

/// A decoded frame occupies at least one byte and at most the whole buffer.
pub proof fn lemma_dec_frame_bound(s: Seq<u8>)
    ensures
        spec_dec_frame(s) matches SpecDec::Val(v, n) ==> 0 < n <= s.len(),
    decreases s.len(), 1int, 0nat,
{
    if s.len() == 0 {
    } else if s[0] == TAG_SIMPLE || s[0] == TAG_ERROR || s[0] == TAG_INTEGER || s[0]
        == TAG_DOUBLE {
        match spec_simple_end(s, s[0]) {
            SpecEnd::End(e) => {
                lemma_nth_crlf_bounds(s, 1, 1);
            },
            _ => {},
        }
    } else if s[0] == TAG_BULK {
        if s.len() >= 5 && s.subrange(0, 5) == null_bulk_lit() {
        } else {
            match spec_simple_end(s, TAG_BULK) {
                SpecEnd::End(e) => {
                    lemma_nth_crlf_bounds(s, 1, 1);
                    },
                _ => {},
            }
        }
    } else if s[0] == TAG_ARRAY {
        if s.len() >= 5 && s.subrange(0, 5) == null_array_lit() {
        } else {
            match spec_simple_end(s, TAG_ARRAY) {
                SpecEnd::End(e) => {
                    lemma_nth_crlf_bounds(s, 1, 1);
                    match spec_parse_usize(s.subrange(1, e)) {
                        Some(cnt) => {
                            if e >= 1 && e + 2 <= s.len() {
                                lemma_dec_elems_bound_one(s.skip(e + 2), cnt as nat);
                            }
                        },
                        None => {},
                    }
                },
                _ => {},
            }
        }
    } else if s[0] == TAG_MAP {
        match spec_simple_end(s, TAG_MAP) {
            SpecEnd::End(e) => {
                lemma_nth_crlf_bounds(s, 1, 1);
                match spec_parse_usize(s.subrange(1, e)) {
                    Some(cnt) => {
                        if e >= 1 && e + 2 <= s.len() {
                            lemma_dec_pairs_bound_one(s.skip(e + 2), cnt as nat);
                        }
                    },
                    None => {},
                }
            },
            _ => {},
        }
    } else if s[0] == TAG_SET {
        match spec_simple_end(s, TAG_SET) {
            SpecEnd::End(e) => {
                lemma_nth_crlf_bounds(s, 1, 1);
                match spec_parse_usize(s.subrange(1, e)) {
                    Some(cnt) => {
                        if e >= 1 && e + 2 <= s.len() {
                            lemma_dec_elems_bound_one(s.skip(e + 2), cnt as nat);
                        }
                    },
                    None => {},
                }
            },
            _ => {},
        }
    } else {
    }
}

/// The bound for one element count.
pub proof fn lemma_dec_elems_bound_one(s: Seq<u8>, c: nat)
    ensures
        spec_dec_elems(s, c) matches SpecDec::Val(vs, m) ==> 0 <= m <= s.len() && vs.len() == c,
    decreases s.len(), 2int, c,
{
    if c > 0 {
        match spec_dec_frame(s) {
            SpecDec::Val(v, n) => {
                lemma_dec_frame_bound(s);
                if 0 <= n <= s.len() {
                    lemma_dec_elems_bound_one(s.skip(n), (c - 1) as nat);
                }
            },
            _ => {},
        }
    }
}

/// The bound for one pair count.
pub proof fn lemma_dec_pairs_bound_one(s: Seq<u8>, c: nat)
    ensures
        spec_dec_pairs(s, c) matches SpecDec::Val(vs, m) ==> 0 <= m <= s.len() && vs.len() == c,
    decreases s.len(), 2int, c,
{
    if c > 0 {
        match spec_dec_frame(s) {
            SpecDec::Val(k, n) => {
                lemma_dec_frame_bound(s);
                if 0 <= n <= s.len() {
                    match spec_dec_frame(s.skip(n)) {
                        SpecDec::Val(v, m) => {
                            lemma_dec_frame_bound(s.skip(n));
                            if 0 <= m && n + m <= s.len() {
                                lemma_dec_pairs_bound_one(s.skip(n + m), (c - 1) as nat);
                            }
                        },
                        _ => {},
                    }
                }
            },
            _ => {},
        }
    }
}

} // verus!

verus! {

/// Every span the frame predictor reports on a machine-sized buffer is
/// non-negative and fits in a machine word.
pub proof fn lemma_exp_frame_bounds(s: Seq<u8>)
    requires
        s.len() <= usize::MAX,
    ensures
        spec_exp_frame(s) matches SpecExp::Len(n) ==> 0 <= n <= usize::MAX,
{
    if s.len() == 0 {
    } else if s[0] == TAG_SIMPLE || s[0] == TAG_ERROR || s[0] == TAG_INTEGER || s[0]
        == TAG_DOUBLE {
        match spec_simple_end(s, s[0]) {
            SpecEnd::End(e) => {
                lemma_nth_crlf_bounds(s, 1, 1);
            },
            _ => {},
        }
    } else if s[0] == TAG_BULK {
        match spec_simple_end(s, TAG_BULK) {
            SpecEnd::End(e) => {
                lemma_nth_crlf_bounds(s, 1, 1);
            },
            _ => {},
        }
    } else if s[0] == TAG_MAP || s[0] == TAG_SET || s[0] == TAG_ARRAY {
        let factor: nat = if s[0] == TAG_MAP {
            2
        } else {
            1
        };
        match spec_simple_end(s, s[0]) {
            SpecEnd::End(e) => {
                lemma_nth_crlf_bounds(s, 1, 1);
                match spec_parse_usize(s.subrange(1, e)) {
                    Some(cnt) => {
                        crate::protocol::protocols::lemma_exp_elems_bounds(
                            s.skip(e + 2),
                            (factor * cnt) as nat,
                        );
                    },
                    None => {},
                }
            },
            _ => {},
        }
    } else {
    }
}

/// The predictor and the decoder never disagree about completeness: a
/// decoded frame's span is exactly what the predictor reports, and on an
/// incomplete buffer the predictor either cannot answer yet or reports a
/// span beyond the bytes present.
pub proof fn lemma_expect_consistent(s: Seq<u8>)
    requires
        s.len() <= usize::MAX,
    ensures
        spec_dec_frame(s) matches SpecDec::Val(v, n) ==> spec_exp_frame(s) == SpecExp::Len(n),
        spec_dec_frame(s) is Inc ==> spec_exp_frame(s) is Inc || (spec_exp_frame(s)
            matches SpecExp::Len(n) && n > s.len()),
    decreases s.len(), 1int, 0nat,
{
    if s.len() == 0 {
    } else if s[0] == TAG_SIMPLE || s[0] == TAG_ERROR || s[0] == TAG_INTEGER || s[0]
        == TAG_DOUBLE {
    } else if s[0] == TAG_BOOL || s[0] == TAG_NULL {
    } else if s[0] == TAG_BULK {
        if s.len() >= 5 && s.subrange(0, 5) == null_bulk_lit() {
        } else {
            match spec_simple_end(s, TAG_BULK) {
                SpecEnd::End(e) => {
                    lemma_nth_crlf_bounds(s, 1, 1);
                },
                _ => {},
            }
        }
    } else if s[0] == TAG_ARRAY || s[0] == TAG_SET || s[0] == TAG_MAP {
        let tag = s[0];
        let factor: nat = if tag == TAG_MAP {
            2
        } else {
            1
        };
        if tag == TAG_ARRAY && s.len() >= 5 && s.subrange(0, 5) == null_array_lit() {
        } else {
            match spec_simple_end(s, tag) {
                SpecEnd::End(e) => {
                    lemma_nth_crlf_bounds(s, 1, 1);
                    match spec_parse_usize(s.subrange(1, e)) {
                        Some(cnt) => {
                            if e >= 1 && e + 2 <= s.len() {
                                let body = s.skip(e + 2);
                                if tag == TAG_MAP {
                                    lemma_expect_consistent_pairs(body, cnt as nat);
                                    lemma_dec_pairs_bound_one(body, cnt as nat);
                                } else {
                                    lemma_expect_consistent_elems(body, cnt as nat);
                                    lemma_dec_elems_bound_one(body, cnt as nat);
                                }
                                crate::protocol::protocols::lemma_exp_elems_bounds(
                                    body,
                                    (factor * cnt) as nat,
                                );
                            }
                        },
                        None => {},
                    }
                },
                _ => {},
            }
        }
    } else {
    }
}

/// Consistency for a run of expected elements.
pub proof fn lemma_expect_consistent_elems(s: Seq<u8>, c: nat)
    requires
        s.len() <= usize::MAX,
    ensures
        spec_dec_elems(s, c) matches SpecDec::Val(vs, m) ==> spec_exp_elems(s, c)
            == SpecExp::Len(m),
        spec_dec_elems(s, c) is Inc ==> spec_exp_elems(s, c) is Inc || (spec_exp_elems(s, c)
            matches SpecExp::Len(m) && m > s.len()),
    decreases s.len(), 2int, c,
{
    if c > 0 {
        match spec_dec_frame(s) {
            SpecDec::Val(v, n) => {
                lemma_dec_frame_bound(s);
                lemma_expect_consistent(s);
                if 0 < n <= s.len() {
                    lemma_dec_elems_bound_one(s.skip(n), (c - 1) as nat);
                    lemma_expect_consistent_elems(s.skip(n), (c - 1) as nat);
                    crate::protocol::protocols::lemma_exp_elems_bounds(
                        s.skip(n),
                        (c - 1) as nat,
                    );
                }
            },
            SpecDec::Inc => {
                lemma_expect_consistent(s);
                lemma_exp_frame_bounds(s);
                match spec_exp_frame(s) {
                    SpecExp::Len(n) => {
                        if n > s.len() {
                            let k = s.len() as int;
                            assert(s.skip(k) =~= Seq::<u8>::empty());
                            if c > 1 {
                                assert(spec_exp_frame(Seq::<u8>::empty()) == SpecExp::Inc);
                                assert(spec_exp_elems(Seq::<u8>::empty(), (c - 1) as nat)
                                    == SpecExp::Inc);
                            } else {
                                assert(spec_exp_elems(Seq::<u8>::empty(), (c - 1) as nat)
                                    == SpecExp::Len(0));
                            }
                        }
                    },
                    _ => {},
                }
            },
            _ => {},
        }
    }
}

/// Consistency for a run of expected pairs: the decoder walks pairs while
/// the predictor walks twice as many single frames.
pub proof fn lemma_expect_consistent_pairs(s: Seq<u8>, c: nat)
    requires
        s.len() <= usize::MAX,
    ensures
        spec_dec_pairs(s, c) matches SpecDec::Val(vs, m) ==> spec_exp_elems(s, (2 * c) as nat)
            == SpecExp::Len(m),
        spec_dec_pairs(s, c) is Inc ==> spec_exp_elems(s, (2 * c) as nat) is Inc || (
        spec_exp_elems(s, (2 * c) as nat) matches SpecExp::Len(m) && m > s.len()),
    decreases s.len(), 2int, c,
{
    if c > 0 {
        assert(2 * c >= 2);
        match spec_dec_frame(s) {
            SpecDec::Val(k, n) => {
                lemma_dec_frame_bound(s);
                lemma_expect_consistent(s);
                if 0 < n <= s.len() {
                    let s1 = s.skip(n);
                    assert(spec_exp_elems(s, (2 * c) as nat) == crate::protocol::decspec::prepend_exp(
                        n,
                        spec_exp_elems(s1, (2 * c - 1) as nat),
                    ));
                    match spec_dec_frame(s1) {
                        SpecDec::Val(v, m) => {
                            lemma_dec_frame_bound(s1);
                            lemma_expect_consistent(s1);
                            if 0 < m <= s1.len() && n + m <= s.len() {
                                let s2 = s.skip(n + m);
                                assert(s1.skip(m) =~= s2);
                                assert(spec_exp_elems(s1, (2 * c - 1) as nat)
                                    == crate::protocol::decspec::prepend_exp(
                                    m,
                                    spec_exp_elems(s2, (2 * (c - 1)) as nat),
                                ));
                                lemma_dec_pairs_bound_one(s2, (c - 1) as nat);
                                lemma_expect_consistent_pairs(s2, (c - 1) as nat);
                                crate::protocol::protocols::lemma_exp_elems_bounds(
                                    s2,
                                    (2 * (c - 1)) as nat,
                                );
                            }
                        },
                        SpecDec::Inc => {
                            lemma_expect_consistent(s1);
                            lemma_exp_frame_bounds(s1);
                            match spec_exp_frame(s1) {
                                SpecExp::Len(m) => {
                                    if m > s1.len() {
                                        let k2 = s1.len() as int;
                                        assert(s1.skip(k2) =~= Seq::<u8>::empty());
                                        if 2 * c - 2 > 0 {
                                            assert(spec_exp_frame(Seq::<u8>::empty())
                                                == SpecExp::Inc);
                                            assert(spec_exp_elems(
                                                Seq::<u8>::empty(),
                                                (2 * c - 2) as nat,
                                            ) == SpecExp::Inc);
                                        } else {
                                            assert(spec_exp_elems(
                                                Seq::<u8>::empty(),
                                                (2 * c - 2) as nat,
                                            ) == SpecExp::Len(0));
                                        }
                                    }
                                },
                                _ => {},
                            }
                        },
                        _ => {},
                    }
                }
            },
            SpecDec::Inc => {
                lemma_expect_consistent(s);
                lemma_exp_frame_bounds(s);
                match spec_exp_frame(s) {
                    SpecExp::Len(n) => {
                        if n > s.len() {
                            let k = s.len() as int;
                            assert(s.skip(k) =~= Seq::<u8>::empty());
                            assert(2 * c - 1 > 0);
                            assert(spec_exp_frame(Seq::<u8>::empty()) == SpecExp::Inc);
                            assert(spec_exp_elems(Seq::<u8>::empty(), (2 * c - 1) as nat)
                                == SpecExp::Inc);
                        }
                    },
                    _ => {},
                }
            },
            _ => {},
        }
    }
}

} // verus!

verus! {

/// No terminator stands before the one the scan found.
pub proof fn lemma_first_crlf_min(s: Seq<u8>, start: int, e: int)
    requires
        first_crlf_from(s, start) == Some(e),
    ensures
        forall|j: int| start <= j < e ==> !crlf_at(s, j),
    decreases s.len() - start,
{
    if start < 0 || start + 1 >= s.len() {
    } else if s[start] == CR && s[start + 1] == LF {
    } else {
        lemma_first_crlf_min(s, start + 1, e);
        lemma_nth_crlf_bounds(s, start + 1, 1);
    }
}

/// Every frame the decoder produces is well-formed, so it can be encoded
/// again.
pub proof fn lemma_dec_wf(s: Seq<u8>)
    ensures
        spec_dec_frame(s) matches SpecDec::Val(v, n) ==> wf_frame(v),
    decreases s.len(), 1int, 0nat,
{
    if s.len() == 0 {
    } else if s[0] == TAG_SIMPLE || s[0] == TAG_ERROR {
        match spec_simple_end(s, s[0]) {
            SpecEnd::End(e) => {
                lemma_nth_crlf_bounds(s, 1, 1);
                lemma_first_crlf_min(s, 1, e);
                let t = s.subrange(1, e);
                assert forall|i: int| 0 <= i && i + 1 < t.len() implies !(#[trigger] t[i] == CR
                    && t[i + 1] == LF) by {
                    assert(t[i] == s[1 + i]);
                    assert(t[i + 1] == s[2 + i]);
                    assert(!crlf_at(s, 1 + i));
                }
            },
            _ => {},
        }
    } else if s[0] == TAG_BULK {
        if s.len() >= 5 && s.subrange(0, 5) == null_bulk_lit() {
        } else {
            match spec_simple_end(s, TAG_BULK) {
                SpecEnd::End(e) => {
                    lemma_nth_crlf_bounds(s, 1, 1);
                    match spec_parse_usize(s.subrange(1, e)) {
                        Some(len) => {
                            if e + 2 + len + 2 <= s.len() {
                                assert(s.subrange(e + 2, e + 2 + len).len() == len);
                            }
                        },
                        None => {},
                    }
                },
                _ => {},
            }
        }
    } else if s[0] == TAG_ARRAY {
        if s.len() >= 5 && s.subrange(0, 5) == null_array_lit() {
        } else {
            match spec_simple_end(s, TAG_ARRAY) {
                SpecEnd::End(e) => {
                    match spec_parse_usize(s.subrange(1, e)) {
                        Some(cnt) => {
                            if e >= 1 && e + 2 <= s.len() {
                                lemma_dec_elems_wf(s.skip(e + 2), cnt as nat);
                                lemma_dec_elems_bound_one(s.skip(e + 2), cnt as nat);
                            }
                        },
                        None => {},
                    }
                },
                _ => {},
            }
        }
    } else if s[0] == TAG_SET {
        match spec_simple_end(s, TAG_SET) {
            SpecEnd::End(e) => {
                match spec_parse_usize(s.subrange(1, e)) {
                    Some(cnt) => {
                        if e >= 1 && e + 2 <= s.len() {
                            lemma_dec_elems_wf(s.skip(e + 2), cnt as nat);
                            lemma_dec_elems_bound_one(s.skip(e + 2), cnt as nat);
                        }
                    },
                    None => {},
                }
            },
            _ => {},
        }
    } else if s[0] == TAG_MAP {
        match spec_simple_end(s, TAG_MAP) {
            SpecEnd::End(e) => {
                match spec_parse_usize(s.subrange(1, e)) {
                    Some(cnt) => {
                        if e >= 1 && e + 2 <= s.len() {
                            lemma_dec_pairs_wf(s.skip(e + 2), cnt as nat);
                            lemma_dec_pairs_bound_one(s.skip(e + 2), cnt as nat);
                        }
                    },
                    None => {},
                }
            },
            _ => {},
        }
    } else {
    }
}

/// Every element sequence the decoder produces is well-formed throughout.
pub proof fn lemma_dec_elems_wf(s: Seq<u8>, c: nat)
    ensures
        spec_dec_elems(s, c) matches SpecDec::Val(vs, m) ==> wf_seq(vs),
    decreases s.len(), 2int, c,
{
    if c > 0 {
        match spec_dec_frame(s) {
            SpecDec::Val(v, n) => {
                lemma_dec_wf(s);
                lemma_dec_frame_bound(s);
                if 0 <= n <= s.len() {
                    lemma_dec_elems_wf(s.skip(n), (c - 1) as nat);
                    match spec_dec_elems(s.skip(n), (c - 1) as nat) {
                        SpecDec::Val(vs2, m2) => {
                            let whole = seq![v] + vs2;
                            assert forall|i: int| 0 <= i < whole.len() implies wf_frame(
                                #[trigger] whole[i],
                            ) by {
                                if i == 0 {
                                    assert(whole[0] == v);
                                } else {
                                    assert(whole[i] == vs2[i - 1]);
                                }
                            }
                        },
                        _ => {},
                    }
                }
            },
            _ => {},
        }
    }
}

/// Every pair sequence the decoder produces is well-formed throughout.
pub proof fn lemma_dec_pairs_wf(s: Seq<u8>, c: nat)
    ensures
        spec_dec_pairs(s, c) matches SpecDec::Val(vs, m) ==> wf_pairs(vs),
    decreases s.len(), 2int, c,
{
    if c > 0 {
        match spec_dec_frame(s) {
            SpecDec::Val(k, n) => {
                lemma_dec_wf(s);
                lemma_dec_frame_bound(s);
                if 0 <= n <= s.len() {
                    match spec_dec_frame(s.skip(n)) {
                        SpecDec::Val(v, m) => {
                            lemma_dec_wf(s.skip(n));
                            lemma_dec_frame_bound(s.skip(n));
                            if 0 <= m && n + m <= s.len() {
                                lemma_dec_pairs_wf(s.skip(n + m), (c - 1) as nat);
                                match spec_dec_pairs(s.skip(n + m), (c - 1) as nat) {
                                    SpecDec::Val(vs2, m2) => {
                                        let whole = seq![(k, v)] + vs2;
                                        assert forall|i: int| 0 <= i < whole.len() implies
                                            wf_frame((#[trigger] whole[i]).0) && wf_frame(
                                            whole[i].1,
                                        ) by {
                                            if i == 0 {
                                                assert(whole[0] == (k, v));
                                            } else {
                                                assert(whole[i] == vs2[i - 1]);
                                            }
                                        }
                                    },
                                    _ => {},
                                }
                            }
                        },
                        _ => {},
                    }
                }
            },
            _ => {},
        }
    }
}

} // verus!
