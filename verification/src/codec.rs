//! The wire codec.
//!
//! A record travels as a 4-byte big-endian length followed by that many
//! bytes of a canonical binary serialization: a one-byte variant tag,
//! little-endian 64-bit integers, length-prefixed byte strings, UTF-8
//! text, and one-byte option markers.  The specification-level encoder
//! and parser below are total functions; the executable pair is proved
//! against them, and parsing an encoding gives the record back.

use vstd::bytes::spec_u64_from_le_bytes;
use vstd::bytes::spec_u64_to_le_bytes;
use vstd::prelude::*;
use vstd::utf8::decode_utf8;
use vstd::utf8::encode_utf8;
use vstd::utf8::valid_utf8;

use crate::oid::ContextView;
use crate::oid::OidView;
use crate::oid::ServantErrorView;
use crate::servant::RecordView;

verus! {

// ---- specification-level encoding -------------------------------------

pub open spec fn enc_u64(x: u64) -> Seq<u8> {
    spec_u64_to_le_bytes(x)
}

pub open spec fn enc_bytes(b: Seq<u8>) -> Seq<u8> {
    enc_u64(b.len() as u64) + b
}

pub open spec fn enc_str(s: Seq<char>) -> Seq<u8> {
    enc_bytes(encode_utf8(s))
}

pub open spec fn enc_opt_u64(o: Option<u64>) -> Seq<u8> {
    match o {
        None => seq![0u8],
        Some(x) => seq![1u8] + enc_u64(x),
    }
}

pub open spec fn enc_opt_str(o: Option<Seq<char>>) -> Seq<u8> {
    match o {
        None => seq![0u8],
        Some(s) => seq![1u8] + enc_str(s),
    }
}

pub open spec fn enc_attrs(s: Seq<(Seq<char>, Seq<char>)>) -> Seq<u8>
    decreases s.len(),
{
    if s.len() == 0 {
        Seq::empty()
    } else {
        enc_str(s[0].0) + enc_str(s[0].1) + enc_attrs(s.drop_first())
    }
}

pub open spec fn enc_ctx(c: ContextView) -> Seq<u8> {
    enc_opt_u64(c.timeout_millisecond) + enc_opt_u64(c.user_cookie) + enc_opt_str(c.connection_id)
        + enc_u64(c.attributes.len() as u64) + enc_attrs(c.attributes)
}

pub open spec fn enc_opt_ctx(o: Option<ContextView>) -> Seq<u8> {
    match o {
        None => seq![0u8],
        Some(c) => seq![1u8] + enc_ctx(c),
    }
}

pub open spec fn enc_oid(o: OidView) -> Seq<u8> {
    enc_str(o.name) + enc_str(o.category)
}

pub open spec fn enc_opt_oid(o: Option<OidView>) -> Seq<u8> {
    match o {
        None => seq![0u8],
        Some(v) => seq![1u8] + enc_oid(v),
    }
}

/// The canonical serialization of a record.
pub open spec fn spec_encode_record(v: RecordView) -> Seq<u8> {
    match v {
        RecordView::Notice { id, msg } => seq![0u8] + enc_u64(id) + enc_bytes(msg),
        RecordView::Report { id, oid, msg } => seq![1u8] + enc_u64(id) + enc_oid(oid) + enc_bytes(
            msg,
        ),
        RecordView::Request { id, ctx, oid, req } => seq![2u8] + enc_u64(id) + enc_opt_ctx(ctx)
            + enc_opt_oid(oid) + enc_bytes(req),
        RecordView::Response { id, oid, ret } => seq![3u8] + enc_u64(id) + enc_opt_oid(oid)
            + enc_bytes(ret),
    }
}

pub open spec fn enc_err(e: ServantErrorView) -> Seq<u8> {
    match e {
        ServantErrorView::NoSupportSerializable => seq![0u8],
        ServantErrorView::DuplicateOid => seq![1u8],
        ServantErrorView::Other(s) => seq![2u8] + enc_str(s),
    }
}

/// The canonical serialization of a call outcome, carried in the `ret`
/// field of a response.
pub open spec fn spec_encode_outcome(r: Result<Seq<u8>, ServantErrorView>) -> Seq<u8> {
    match r {
        Ok(b) => seq![0u8] + enc_bytes(b),
        Err(e) => seq![1u8] + enc_err(e),
    }
}

// ---- boundedness: what any value held in memory satisfies --------------

pub open spec fn str_ok(s: Seq<char>) -> bool {
    encode_utf8(s).len() < 0x10000000000000000
}

pub open spec fn bytes_ok(b: Seq<u8>) -> bool {
    b.len() < 0x10000000000000000
}

pub open spec fn ctx_ok(c: ContextView) -> bool {
    &&& (c.connection_id matches Some(s) ==> str_ok(s))
    &&& c.attributes.len() < 0x10000000000000000
    &&& forall|i: int|
        0 <= i < c.attributes.len() ==> str_ok((#[trigger] c.attributes[i]).0) && str_ok(
            c.attributes[i].1,
        )
}

pub open spec fn oid_ok(o: OidView) -> bool {
    str_ok(o.name) && str_ok(o.category)
}

pub open spec fn record_ok(v: RecordView) -> bool {
    match v {
        RecordView::Notice { id, msg } => bytes_ok(msg),
        RecordView::Report { id, oid, msg } => oid_ok(oid) && bytes_ok(msg),
        RecordView::Request { id, ctx, oid, req } => (ctx matches Some(c) ==> ctx_ok(c)) && (
        oid matches Some(o) ==> oid_ok(o)) && bytes_ok(req),
        RecordView::Response { id, oid, ret } => (oid matches Some(o) ==> oid_ok(o)) && bytes_ok(
            ret,
        ),
    }
}

pub open spec fn outcome_ok(r: Result<Seq<u8>, ServantErrorView>) -> bool {
    match r {
        Ok(b) => bytes_ok(b),
        Err(e) => match e {
            ServantErrorView::Other(s) => str_ok(s),
            _ => true,
        },
    }
}

// ---- specification-level parsing ---------------------------------------

pub open spec fn dec_byte(b: Seq<u8>) -> Option<(u8, Seq<u8>)> {
    if b.len() >= 1 {
        Some((b[0], b.drop_first()))
    } else {
        None
    }
}

pub open spec fn dec_u64(b: Seq<u8>) -> Option<(u64, Seq<u8>)> {
    if b.len() >= 8 {
        Some((spec_u64_from_le_bytes(b.take(8)), b.skip(8)))
    } else {
        None
    }
}

pub open spec fn dec_bytes(b: Seq<u8>) -> Option<(Seq<u8>, Seq<u8>)> {
    match dec_u64(b) {
        None => None,
        Some((n, rest)) => if rest.len() >= n {
            Some((rest.take(n as int), rest.skip(n as int)))
        } else {
            None
        },
    }
}

pub open spec fn dec_str(b: Seq<u8>) -> Option<(Seq<char>, Seq<u8>)> {
    match dec_bytes(b) {
        None => None,
        Some((bs, rest)) => if valid_utf8(bs) {
            Some((decode_utf8(bs), rest))
        } else {
            None
        },
    }
}

pub open spec fn dec_opt_u64(b: Seq<u8>) -> Option<(Option<u64>, Seq<u8>)> {
    match dec_byte(b) {
        None => None,
        Some((t, rest)) => if t == 0 {
            Some((None, rest))
        } else if t == 1 {
            match dec_u64(rest) {
                None => None,
                Some((x, rest2)) => Some((Some(x), rest2)),
            }
        } else {
            None
        },
    }
}

pub open spec fn dec_opt_str(b: Seq<u8>) -> Option<(Option<Seq<char>>, Seq<u8>)> {
    match dec_byte(b) {
        None => None,
        Some((t, rest)) => if t == 0 {
            Some((None, rest))
        } else if t == 1 {
            match dec_str(rest) {
                None => None,
                Some((s, rest2)) => Some((Some(s), rest2)),
            }
        } else {
            None
        },
    }
}

pub open spec fn dec_attrs(n: nat, b: Seq<u8>) -> Option<(Seq<(Seq<char>, Seq<char>)>, Seq<u8>)>
    decreases n,
{
    if n == 0 {
        Some((Seq::empty(), b))
    } else {
        match dec_str(b) {
            None => None,
            Some((k, r1)) => match dec_str(r1) {
                None => None,
                Some((v, r2)) => match dec_attrs((n - 1) as nat, r2) {
                    None => None,
                    Some((tail, rest)) => Some((seq![(k, v)] + tail, rest)),
                },
            },
        }
    }
}

pub open spec fn dec_ctx(b: Seq<u8>) -> Option<(ContextView, Seq<u8>)> {
    match dec_opt_u64(b) {
        None => None,
        Some((timeout, r1)) => match dec_opt_u64(r1) {
            None => None,
            Some((cookie, r2)) => match dec_opt_str(r2) {
                None => None,
                Some((conn, r3)) => match dec_u64(r3) {
                    None => None,
                    Some((n, r4)) => match dec_attrs(n as nat, r4) {
                        None => None,
                        Some((attrs, rest)) => Some(
                            (
                                ContextView {
                                    timeout_millisecond: timeout,
                                    user_cookie: cookie,
                                    connection_id: conn,
                                    attributes: attrs,
                                },
                                rest,
                            ),
                        ),
                    },
                },
            },
        },
    }
}

pub open spec fn dec_opt_ctx(b: Seq<u8>) -> Option<(Option<ContextView>, Seq<u8>)> {
    match dec_byte(b) {
        None => None,
        Some((t, rest)) => if t == 0 {
            Some((None, rest))
        } else if t == 1 {
            match dec_ctx(rest) {
                None => None,
                Some((c, rest2)) => Some((Some(c), rest2)),
            }
        } else {
            None
        },
    }
}

pub open spec fn dec_oid(b: Seq<u8>) -> Option<(OidView, Seq<u8>)> {
    match dec_str(b) {
        None => None,
        Some((name, r1)) => match dec_str(r1) {
            None => None,
            Some((category, rest)) => Some((OidView { name, category }, rest)),
        },
    }
}

pub open spec fn dec_opt_oid(b: Seq<u8>) -> Option<(Option<OidView>, Seq<u8>)> {
    match dec_byte(b) {
        None => None,
        Some((t, rest)) => if t == 0 {
            Some((None, rest))
        } else if t == 1 {
            match dec_oid(rest) {
                None => None,
                Some((o, rest2)) => Some((Some(o), rest2)),
            }
        } else {
            None
        },
    }
}

/// The canonical parser: accepts exactly the full encodings of records.
pub open spec fn spec_decode_record(b: Seq<u8>) -> Option<RecordView> {
    match dec_byte(b) {
        None => None,
        Some((tag, r0)) => if tag == 0 {
            match dec_u64(r0) {
                None => None,
                Some((id, r1)) => match dec_bytes(r1) {
                    None => None,
                    Some((msg, rest)) => if rest.len() == 0 {
                        Some(RecordView::Notice { id, msg })
                    } else {
                        None
                    },
                },
            }
        } else if tag == 1 {
            match dec_u64(r0) {
                None => None,
                Some((id, r1)) => match dec_oid(r1) {
                    None => None,
                    Some((oid, r2)) => match dec_bytes(r2) {
                        None => None,
                        Some((msg, rest)) => if rest.len() == 0 {
                            Some(RecordView::Report { id, oid, msg })
                        } else {
                            None
                        },
                    },
                },
            }
        } else if tag == 2 {
            match dec_u64(r0) {
                None => None,
                Some((id, r1)) => match dec_opt_ctx(r1) {
                    None => None,
                    Some((ctx, r2)) => match dec_opt_oid(r2) {
                        None => None,
                        Some((oid, r3)) => match dec_bytes(r3) {
                            None => None,
                            Some((req, rest)) => if rest.len() == 0 {
                                Some(RecordView::Request { id, ctx, oid, req })
                            } else {
                                None
                            },
                        },
                    },
                },
            }
        } else if tag == 3 {
            match dec_u64(r0) {
                None => None,
                Some((id, r1)) => match dec_opt_oid(r1) {
                    None => None,
                    Some((oid, r2)) => match dec_bytes(r2) {
                        None => None,
                        Some((ret, rest)) => if rest.len() == 0 {
                            Some(RecordView::Response { id, oid, ret })
                        } else {
                            None
                        },
                    },
                },
            }
        } else {
            None
        },
    }
}

/// The canonical parser for a call outcome.
pub open spec fn spec_decode_outcome(b: Seq<u8>) -> Option<Result<Seq<u8>, ServantErrorView>> {
    match dec_byte(b) {
        None => None,
        Some((tag, r0)) => if tag == 0 {
            match dec_bytes(r0) {
                None => None,
                Some((v, rest)) => if rest.len() == 0 {
                    Some(Ok(v))
                } else {
                    None
                },
            }
        } else if tag == 1 {
            match dec_byte(r0) {
                None => None,
                Some((et, r1)) => if et == 0 {
                    if r1.len() == 0 {
                        Some(Err(ServantErrorView::NoSupportSerializable))
                    } else {
                        None
                    }
                } else if et == 1 {
                    if r1.len() == 0 {
                        Some(Err(ServantErrorView::DuplicateOid))
                    } else {
                        None
                    }
                } else if et == 2 {
                    match dec_str(r1) {
                        None => None,
                        Some((s, rest)) => if rest.len() == 0 {
                            Some(Err(ServantErrorView::Other(s)))
                        } else {
                            None
                        },
                    }
                } else {
                    None
                },
            }
        } else {
            None
        },
    }
}

// ---- the round trip, piece by piece ------------------------------------

proof fn lemma_dec_byte(t: u8, rest: Seq<u8>)
    ensures
        dec_byte(seq![t] + rest) == Some((t, rest)),
{
    assert((seq![t] + rest).drop_first() =~= rest);
}

proof fn lemma_dec_u64(x: u64, rest: Seq<u8>)
    ensures
        dec_u64(enc_u64(x) + rest) == Some((x, rest)),
{
    vstd::bytes::lemma_auto_spec_u64_to_from_le_bytes();
    assert((enc_u64(x) + rest).take(8) =~= enc_u64(x));
    assert((enc_u64(x) + rest).skip(8) =~= rest);
}

proof fn lemma_dec_bytes(b: Seq<u8>, rest: Seq<u8>)
    requires
        bytes_ok(b),
    ensures
        dec_bytes(enc_bytes(b) + rest) == Some((b, rest)),
{
    let n = b.len() as u64;
    assert(enc_bytes(b) + rest =~= enc_u64(n) + (b + rest));
    lemma_dec_u64(n, b + rest);
    assert((b + rest).take(n as int) =~= b);
    assert((b + rest).skip(n as int) =~= rest);
}

proof fn lemma_dec_str(s: Seq<char>, rest: Seq<u8>)
    requires
        str_ok(s),
    ensures
        dec_str(enc_str(s) + rest) == Some((s, rest)),
{
    vstd::utf8::encode_utf8_valid_utf8(s);
    vstd::utf8::encode_utf8_decode_utf8(s);
    lemma_dec_bytes(encode_utf8(s), rest);
}

proof fn lemma_dec_opt_u64(o: Option<u64>, rest: Seq<u8>)
    ensures
        dec_opt_u64(enc_opt_u64(o) + rest) == Some((o, rest)),
{
    match o {
        None => {
            lemma_dec_byte(0u8, rest);
        },
        Some(x) => {
            assert(enc_opt_u64(o) + rest =~= seq![1u8] + (enc_u64(x) + rest));
            lemma_dec_byte(1u8, enc_u64(x) + rest);
            lemma_dec_u64(x, rest);
        },
    }
}

proof fn lemma_dec_opt_str(o: Option<Seq<char>>, rest: Seq<u8>)
    requires
        o matches Some(s) ==> str_ok(s),
    ensures
        dec_opt_str(enc_opt_str(o) + rest) == Some((o, rest)),
{
    match o {
        None => {
            lemma_dec_byte(0u8, rest);
        },
        Some(s) => {
            assert(enc_opt_str(o) + rest =~= seq![1u8] + (enc_str(s) + rest));
            lemma_dec_byte(1u8, enc_str(s) + rest);
            lemma_dec_str(s, rest);
        },
    }
}

proof fn lemma_dec_attrs(s: Seq<(Seq<char>, Seq<char>)>, rest: Seq<u8>)
    requires
        forall|i: int| 0 <= i < s.len() ==> str_ok((#[trigger] s[i]).0) && str_ok(s[i].1),
    ensures
        dec_attrs(s.len(), enc_attrs(s) + rest) == Some((s, rest)),
    decreases s.len(),
{
    if s.len() == 0 {
        assert(enc_attrs(s) + rest =~= rest);
        assert(s =~= Seq::<(Seq<char>, Seq<char>)>::empty());
    } else {
        let k = s[0].0;
        let v = s[0].1;
        let tail = s.drop_first();
        assert(enc_attrs(s) + rest =~= enc_str(k) + (enc_str(v) + (enc_attrs(tail) + rest)));
        lemma_dec_str(k, enc_str(v) + (enc_attrs(tail) + rest));
        lemma_dec_str(v, enc_attrs(tail) + rest);
        assert forall|i: int| 0 <= i < tail.len() implies str_ok((#[trigger] tail[i]).0) && str_ok(
            tail[i].1,
        ) by {
            assert(tail[i] == s[i + 1]);
        }
        lemma_dec_attrs(tail, rest);
        assert(seq![(k, v)] + tail =~= s);
    }
}

proof fn lemma_dec_ctx(c: ContextView, rest: Seq<u8>)
    requires
        ctx_ok(c),
    ensures
        dec_ctx(enc_ctx(c) + rest) == Some((c, rest)),
{
    let n = c.attributes.len() as u64;
    let e4 = enc_attrs(c.attributes) + rest;
    let e3 = enc_u64(n) + e4;
    let e2 = enc_opt_str(c.connection_id) + e3;
    let e1 = enc_opt_u64(c.user_cookie) + e2;
    assert(enc_ctx(c) + rest =~= enc_opt_u64(c.timeout_millisecond) + e1);
    lemma_dec_opt_u64(c.timeout_millisecond, e1);
    lemma_dec_opt_u64(c.user_cookie, e2);
    lemma_dec_opt_str(c.connection_id, e3);
    lemma_dec_u64(n, e4);
    lemma_dec_attrs(c.attributes, rest);
}

proof fn lemma_dec_opt_ctx(o: Option<ContextView>, rest: Seq<u8>)
    requires
        o matches Some(c) ==> ctx_ok(c),
    ensures
        dec_opt_ctx(enc_opt_ctx(o) + rest) == Some((o, rest)),
{
    match o {
        None => {
            lemma_dec_byte(0u8, rest);
        },
        Some(c) => {
            assert(enc_opt_ctx(o) + rest =~= seq![1u8] + (enc_ctx(c) + rest));
            lemma_dec_byte(1u8, enc_ctx(c) + rest);
            lemma_dec_ctx(c, rest);
        },
    }
}

proof fn lemma_dec_oid(o: OidView, rest: Seq<u8>)
    requires
        oid_ok(o),
    ensures
        dec_oid(enc_oid(o) + rest) == Some((o, rest)),
{
    assert(enc_oid(o) + rest =~= enc_str(o.name) + (enc_str(o.category) + rest));
    lemma_dec_str(o.name, enc_str(o.category) + rest);
    lemma_dec_str(o.category, rest);
}

proof fn lemma_dec_opt_oid(o: Option<OidView>, rest: Seq<u8>)
    requires
        o matches Some(v) ==> oid_ok(v),
    ensures
        dec_opt_oid(enc_opt_oid(o) + rest) == Some((o, rest)),
{
    match o {
        None => {
            lemma_dec_byte(0u8, rest);
        },
        Some(v) => {
            assert(enc_opt_oid(o) + rest =~= seq![1u8] + (enc_oid(v) + rest));
            lemma_dec_byte(1u8, enc_oid(v) + rest);
            lemma_dec_oid(v, rest);
        },
    }
}

/// Round trip: parsing the encoding of any record yields that record.
pub proof fn lemma_record_round_trip(v: RecordView)
    requires
        record_ok(v),
    ensures
        spec_decode_record(spec_encode_record(v)) == Some(v),
{
    let empty = Seq::<u8>::empty();
    match v {
        RecordView::Notice { id, msg } => {
            let e1 = enc_bytes(msg);
            assert(spec_encode_record(v) =~= seq![0u8] + (enc_u64(id) + e1));
            lemma_dec_byte(0u8, enc_u64(id) + e1);
            assert(e1 =~= e1 + empty);
            lemma_dec_u64(id, e1);
            lemma_dec_bytes(msg, empty);
        },
        RecordView::Report { id, oid, msg } => {
            let e2 = enc_bytes(msg);
            let e1 = enc_oid(oid) + e2;
            assert(spec_encode_record(v) =~= seq![1u8] + (enc_u64(id) + e1));
            lemma_dec_byte(1u8, enc_u64(id) + e1);
            lemma_dec_u64(id, e1);
            lemma_dec_oid(oid, e2);
            assert(e2 =~= e2 + empty);
            lemma_dec_bytes(msg, empty);
        },
        RecordView::Request { id, ctx, oid, req } => {
            let e3 = enc_bytes(req);
            let e2 = enc_opt_oid(oid) + e3;
            let e1 = enc_opt_ctx(ctx) + e2;
            assert(spec_encode_record(v) =~= seq![2u8] + (enc_u64(id) + e1));
            lemma_dec_byte(2u8, enc_u64(id) + e1);
            lemma_dec_u64(id, e1);
            lemma_dec_opt_ctx(ctx, e2);
            lemma_dec_opt_oid(oid, e3);
            assert(e3 =~= e3 + empty);
            lemma_dec_bytes(req, empty);
        },
        RecordView::Response { id, oid, ret } => {
            let e2 = enc_bytes(ret);
            let e1 = enc_opt_oid(oid) + e2;
            assert(spec_encode_record(v) =~= seq![3u8] + (enc_u64(id) + e1));
            lemma_dec_byte(3u8, enc_u64(id) + e1);
            lemma_dec_u64(id, e1);
            lemma_dec_opt_oid(oid, e2);
            assert(e2 =~= e2 + empty);
            lemma_dec_bytes(ret, empty);
        },
    }
}

/// Round trip: parsing the encoding of any call outcome yields it back.
pub proof fn lemma_outcome_round_trip(r: Result<Seq<u8>, ServantErrorView>)
    requires
        outcome_ok(r),
    ensures
        spec_decode_outcome(spec_encode_outcome(r)) == Some(r),
{
    let empty = Seq::<u8>::empty();
    match r {
        Ok(b) => {
            assert(spec_encode_outcome(r) =~= seq![0u8] + (enc_bytes(b) + empty));
            lemma_dec_byte(0u8, enc_bytes(b) + empty);
            lemma_dec_bytes(b, empty);
        },
        Err(e) => {
            match e {
                ServantErrorView::NoSupportSerializable => {
                    assert(spec_encode_outcome(r) =~= seq![1u8] + (seq![0u8] + empty));
                    lemma_dec_byte(1u8, seq![0u8] + empty);
                    lemma_dec_byte(0u8, empty);
                },
                ServantErrorView::DuplicateOid => {
                    assert(spec_encode_outcome(r) =~= seq![1u8] + (seq![1u8] + empty));
                    lemma_dec_byte(1u8, seq![1u8] + empty);
                    lemma_dec_byte(1u8, empty);
                },
                ServantErrorView::Other(s) => {
                    assert(spec_encode_outcome(r) =~= seq![1u8] + (seq![2u8] + (enc_str(s)
                        + empty)));
                    lemma_dec_byte(1u8, seq![2u8] + (enc_str(s) + empty));
                    lemma_dec_byte(2u8, enc_str(s) + empty);
                    assert(enc_str(s) =~= enc_str(s) + empty);
                    lemma_dec_str(s, empty);
                },
            }
        },
    }
}


// ---- executable encoding ------------------------------------------------

/// Relies on `String::from_utf8`: it succeeds exactly on valid UTF-8 and
/// yields the string whose bytes are the input.
#[verifier::external_body]
fn string_from_utf8(bytes: Vec<u8>) -> (r: Option<String>)
    ensures
        r matches Some(s) ==> encode_utf8(s@) == bytes@,
        valid_utf8(bytes@) ==> r is Some,
{
    String::from_utf8(bytes).ok()
}

fn put_byte(out: &mut Vec<u8>, t: u8)
    ensures
        final(out)@ == old(out)@ + seq![t],
{
    out.push(t);
    proof {
        assert(final(out)@ =~= old(out)@ + seq![t]);
    }
}

fn put_u64(out: &mut Vec<u8>, x: u64)
    ensures
        final(out)@ == old(out)@ + enc_u64(x),
{
    let mut b = vstd::bytes::u64_to_le_bytes(x);
    out.append(&mut b);
}

fn put_bytes(out: &mut Vec<u8>, b: &Vec<u8>)
    ensures
        final(out)@ == old(out)@ + enc_bytes(b@),
        bytes_ok(b@),
{
    let n = b.len();
    put_u64(out, n as u64);
    let mut chunk = vstd::slice::slice_to_vec(b.as_slice());
    out.append(&mut chunk);
    proof {
        assert((n as u64) as int == b@.len() as int);
        assert(final(out)@ =~= old(out)@ + enc_bytes(b@));
    }
}

fn put_str(out: &mut Vec<u8>, s: &String)
    ensures
        final(out)@ == old(out)@ + enc_str(s@),
        str_ok(s@),
{
    let bv = vstd::string::StrSliceExecFns::as_bytes_vec(s.as_str());
    put_bytes(out, &bv);
    proof {
        assert(final(out)@ =~= old(out)@ + enc_str(s@));
    }
}

proof fn lemma_enc_attrs_push(s: Seq<(Seq<char>, Seq<char>)>, p: (Seq<char>, Seq<char>))
    ensures
        enc_attrs(s.push(p)) == enc_attrs(s) + enc_str(p.0) + enc_str(p.1),
    decreases s.len(),
{
    if s.len() == 0 {
        assert(enc_attrs(s) =~= Seq::<u8>::empty());
        let sp = s.push(p);
        assert(sp[0] == p);
        assert(sp.drop_first() =~= s);
        assert(enc_attrs(sp) == enc_str(p.0) + enc_str(p.1) + enc_attrs(s));
        assert(enc_attrs(sp) =~= enc_attrs(s) + enc_str(p.0) + enc_str(p.1));
    } else {
        let sp = s.push(p);
        assert(sp[0] == s[0]);
        assert(sp.drop_first() =~= s.drop_first().push(p));
        lemma_enc_attrs_push(s.drop_first(), p);
        assert(enc_attrs(sp) == enc_str(s[0].0) + enc_str(s[0].1) + enc_attrs(
            s.drop_first().push(p),
        ));
        assert(enc_attrs(s) == enc_str(s[0].0) + enc_str(s[0].1) + enc_attrs(s.drop_first()));
        assert(enc_attrs(sp) =~= enc_attrs(s) + enc_str(p.0) + enc_str(p.1));
    }
}

fn put_ctx(out: &mut Vec<u8>, c: &crate::oid::Context)
    ensures
        final(out)@ == old(out)@ + enc_ctx(c@),
        ctx_ok(c@),
{
    match c.timeout_millisecond {
        None => put_byte(out, 0),
        Some(x) => {
            put_byte(out, 1);
            put_u64(out, x);
        },
    }
    proof {
        assert(out@ =~= old(out)@ + enc_opt_u64(c@.timeout_millisecond));
    }
    let ghost base1 = out@;
    match c.user_cookie {
        None => put_byte(out, 0),
        Some(x) => {
            put_byte(out, 1);
            put_u64(out, x);
        },
    }
    proof {
        assert(out@ =~= base1 + enc_opt_u64(c@.user_cookie));
    }
    let ghost base2 = out@;
    match &c.connection_id {
        None => {
            put_byte(out, 0);
            proof {
                assert(out@ =~= base2 + enc_opt_str(c@.connection_id));
            }
        },
        Some(s) => {
            put_byte(out, 1);
            put_str(out, s);
            proof {
                assert(out@ =~= base2 + enc_opt_str(c@.connection_id));
            }
        },
    }
    let ghost base3 = out@;
    let n = c.attributes.len();
    put_u64(out, n as u64);
    let ghost base4 = out@;
    let ghost av = c@.attributes;
    proof {
        assert(av.len() == n);
    }
    let mut i: usize = 0;
    while i < n
        invariant
            n == c.attributes.len(),
            av == c@.attributes,
            i <= n,
            out@ == base4 + enc_attrs(av.take(i as int)),
            forall|j: int| 0 <= j < i ==> str_ok((#[trigger] av[j]).0) && str_ok(av[j].1),
        decreases n - i,
    {
        let ghost prefix = out@;
        put_str(out, &c.attributes[i].0);
        put_str(out, &c.attributes[i].1);
        proof {
            assert(av[i as int] == (c.attributes@[i as int].0@, c.attributes@[i as int].1@));
            assert(out@ =~= prefix + enc_str(av[i as int].0) + enc_str(av[i as int].1));
            lemma_enc_attrs_push(av.take(i as int), av[i as int]);
            assert(av.take(i as int).push(av[i as int]) =~= av.take(i as int + 1));
            assert(out@ =~= base4 + enc_attrs(av.take(i as int + 1)));
        }
        i = i + 1;
    }
    proof {
        assert(av.take(n as int) =~= av);
        assert(out@ =~= old(out)@ + enc_ctx(c@));
    }
}

fn put_oid(out: &mut Vec<u8>, o: &crate::oid::Oid)
    ensures
        final(out)@ == old(out)@ + enc_oid(o@),
        oid_ok(o@),
{
    let name: String = o.name().to_owned();
    let category: String = o.category().to_owned();
    put_str(out, &name);
    put_str(out, &category);
    proof {
        assert(final(out)@ =~= old(out)@ + enc_oid(o@));
    }
}

/// Encodes a record into its canonical serialization.
pub fn encode_record(r: &crate::servant::Record) -> (out: Vec<u8>)
    ensures
        out@ == spec_encode_record(r@),
        record_ok(r@),
{
    let mut out: Vec<u8> = Vec::new();
    proof {
        assert(out@ =~= Seq::<u8>::empty());
    }
    match r {
        crate::servant::Record::Notice { id, msg } => {
            put_byte(&mut out, 0);
            put_u64(&mut out, *id);
            put_bytes(&mut out, msg);
            proof {
                assert(out@ =~= spec_encode_record(r@));
            }
        },
        crate::servant::Record::Report { id, oid, msg } => {
            put_byte(&mut out, 1);
            put_u64(&mut out, *id);
            put_oid(&mut out, oid);
            put_bytes(&mut out, msg);
            proof {
                assert(out@ =~= spec_encode_record(r@));
            }
        },
        crate::servant::Record::Request { id, ctx, oid, req } => {
            put_byte(&mut out, 2);
            put_u64(&mut out, *id);
            match ctx {
                None => put_byte(&mut out, 0),
                Some(c) => {
                    put_byte(&mut out, 1);
                    put_ctx(&mut out, c);
                },
            }
            match oid {
                None => put_byte(&mut out, 0),
                Some(o) => {
                    put_byte(&mut out, 1);
                    put_oid(&mut out, o);
                },
            }
            put_bytes(&mut out, req);
            proof {
                assert(out@ =~= spec_encode_record(r@));
            }
        },
        crate::servant::Record::Response { id, oid, ret } => {
            put_byte(&mut out, 3);
            put_u64(&mut out, *id);
            match oid {
                None => put_byte(&mut out, 0),
                Some(o) => {
                    put_byte(&mut out, 1);
                    put_oid(&mut out, o);
                },
            }
            put_bytes(&mut out, ret);
            proof {
                assert(out@ =~= spec_encode_record(r@));
            }
        },
    }
    out
}

/// Encodes a call outcome for the `ret` field of a response.
pub fn encode_outcome(r: &Result<Vec<u8>, crate::oid::ServantError>) -> (out: Vec<u8>)
    ensures
        ({
            let v = match r {
                Ok(b) => Ok::<Seq<u8>, ServantErrorView>(b@),
                Err(e) => Err(e@),
            };
            out@ == spec_encode_outcome(v) && outcome_ok(v)
        }),
{
    let mut out: Vec<u8> = Vec::new();
    proof {
        assert(out@ =~= Seq::<u8>::empty());
    }
    match r {
        Ok(b) => {
            put_byte(&mut out, 0);
            put_bytes(&mut out, b);
        },
        Err(e) => {
            put_byte(&mut out, 1);
            match e {
                crate::oid::ServantError::NoSupportSerializable => put_byte(&mut out, 0),
                crate::oid::ServantError::DuplicateOid => put_byte(&mut out, 1),
                crate::oid::ServantError::Other(s) => {
                    put_byte(&mut out, 2);
                    put_str(&mut out, s);
                },
            }
        },
    }
    proof {
        let v = match r {
            Ok(b) => Ok::<Seq<u8>, ServantErrorView>(b@),
            Err(e) => Err(e@),
        };
        assert(out@ =~= spec_encode_outcome(v));
    }
    out
}


// ---- executable parsing -------------------------------------------------

fn get_byte(b: &Vec<u8>, pos: usize) -> (r: Option<(u8, usize)>)
    requires
        pos <= b@.len(),
    ensures
        r matches Some(p) ==> pos < p.1 <= b@.len() && dec_byte(b@.skip(pos as int)) == Some(
            (p.0, b@.skip(p.1 as int)),
        ),
        r is None ==> dec_byte(b@.skip(pos as int)) is None,
{
    if pos < b.len() {
        let t = b[pos];
        proof {
            assert(b@.skip(pos as int)[0] == b@[pos as int]);
            assert(b@.skip(pos as int).drop_first() =~= b@.skip(pos as int + 1));
        }
        Some((t, pos + 1))
    } else {
        None
    }
}

fn get_u64(b: &Vec<u8>, pos: usize) -> (r: Option<(u64, usize)>)
    requires
        pos <= b@.len(),
    ensures
        r matches Some(p) ==> pos < p.1 <= b@.len() && dec_u64(b@.skip(pos as int)) == Some(
            (p.0, b@.skip(p.1 as int)),
        ),
        r is None ==> dec_u64(b@.skip(pos as int)) is None,
{
    if b.len() - pos >= 8 {
        let chunk = vstd::slice::slice_subrange(b.as_slice(), pos, pos + 8);
        let x = vstd::bytes::u64_from_le_bytes(chunk);
        proof {
            assert(b@.skip(pos as int).take(8) =~= b@.subrange(pos as int, pos as int + 8));
            assert(b@.skip(pos as int).skip(8) =~= b@.skip(pos as int + 8));
        }
        Some((x, pos + 8))
    } else {
        None
    }
}

fn get_bytes(b: &Vec<u8>, pos: usize) -> (r: Option<(Vec<u8>, usize)>)
    requires
        pos <= b@.len(),
    ensures
        r matches Some(p) ==> pos <= p.1 <= b@.len() && dec_bytes(b@.skip(pos as int)) == Some(
            (p.0@, b@.skip(p.1 as int)),
        ),
        r is None ==> dec_bytes(b@.skip(pos as int)) is None,
{
    match get_u64(b, pos) {
        None => None,
        Some((n, p1)) => {
            if n <= (b.len() - p1) as u64 {
                let nn = n as usize;
                let chunk = vstd::slice::slice_to_vec(
                    vstd::slice::slice_subrange(b.as_slice(), p1, p1 + nn),
                );
                proof {
                    assert(b@.skip(p1 as int).take(n as int) =~= b@.subrange(
                        p1 as int,
                        p1 as int + n,
                    ));
                    assert(b@.skip(p1 as int).skip(n as int) =~= b@.skip(p1 as int + n));
                }
                Some((chunk, p1 + nn))
            } else {
                proof {
                    assert(b@.skip(p1 as int).len() < n);
                }
                None
            }
        },
    }
}

fn get_str(b: &Vec<u8>, pos: usize) -> (r: Option<(String, usize)>)
    requires
        pos <= b@.len(),
    ensures
        r matches Some(p) ==> pos <= p.1 <= b@.len() && dec_str(b@.skip(pos as int)) == Some(
            (p.0@, b@.skip(p.1 as int)),
        ),
        r is None ==> dec_str(b@.skip(pos as int)) is None,
{
    match get_bytes(b, pos) {
        None => None,
        Some((bytes, p1)) => {
            let ghost bs = bytes@;
            match string_from_utf8(bytes) {
                None => {
                    proof {
                        assert(!valid_utf8(bs));
                    }
                    None
                },
                Some(s) => {
                    proof {
                        assert(encode_utf8(s@) == bs);
                        vstd::utf8::encode_utf8_valid_utf8(s@);
                        vstd::utf8::encode_utf8_decode_utf8(s@);
                    }
                    Some((s, p1))
                },
            }
        },
    }
}

fn get_opt_u64(b: &Vec<u8>, pos: usize) -> (r: Option<(Option<u64>, usize)>)
    requires
        pos <= b@.len(),
    ensures
        r matches Some(p) ==> pos <= p.1 <= b@.len() && dec_opt_u64(b@.skip(pos as int)) == Some(
            (p.0, b@.skip(p.1 as int)),
        ),
        r is None ==> dec_opt_u64(b@.skip(pos as int)) is None,
{
    match get_byte(b, pos) {
        None => None,
        Some((t, p1)) => {
            if t == 0 {
                Some((None, p1))
            } else if t == 1 {
                match get_u64(b, p1) {
                    None => None,
                    Some((x, p2)) => Some((Some(x), p2)),
                }
            } else {
                None
            }
        },
    }
}

fn get_opt_str(b: &Vec<u8>, pos: usize) -> (r: Option<(Option<String>, usize)>)
    requires
        pos <= b@.len(),
    ensures
        r matches Some(p) ==> pos <= p.1 <= b@.len() && ({
            let v = match p.0 {
                Some(ref s) => Some(s@),
                None => None,
            };
            dec_opt_str(b@.skip(pos as int)) == Some((v, b@.skip(p.1 as int)))
        }),
        r is None ==> dec_opt_str(b@.skip(pos as int)) is None,
{
    match get_byte(b, pos) {
        None => None,
        Some((t, p1)) => {
            if t == 0 {
                Some((None, p1))
            } else if t == 1 {
                match get_str(b, p1) {
                    None => None,
                    Some((s, p2)) => Some((Some(s), p2)),
                }
            } else {
                None
            }
        },
    }
}

fn get_oid(b: &Vec<u8>, pos: usize) -> (r: Option<(crate::oid::Oid, usize)>)
    requires
        pos <= b@.len(),
    ensures
        r matches Some(p) ==> pos <= p.1 <= b@.len() && dec_oid(b@.skip(pos as int)) == Some(
            (p.0@, b@.skip(p.1 as int)),
        ),
        r is None ==> dec_oid(b@.skip(pos as int)) is None,
{
    match get_str(b, pos) {
        None => None,
        Some((name, p1)) => match get_str(b, p1) {
            None => None,
            Some((category, p2)) => {
                let o = crate::oid::Oid::new(name.as_str(), category.as_str());
                Some((o, p2))
            },
        },
    }
}

fn get_opt_oid(b: &Vec<u8>, pos: usize) -> (r: Option<(Option<crate::oid::Oid>, usize)>)
    requires
        pos <= b@.len(),
    ensures
        r matches Some(p) ==> pos <= p.1 <= b@.len() && ({
            let v = match p.0 {
                Some(ref o) => Some(o@),
                None => None,
            };
            dec_opt_oid(b@.skip(pos as int)) == Some((v, b@.skip(p.1 as int)))
        }),
        r is None ==> dec_opt_oid(b@.skip(pos as int)) is None,
{
    match get_byte(b, pos) {
        None => None,
        Some((t, p1)) => {
            if t == 0 {
                Some((None, p1))
            } else if t == 1 {
                match get_oid(b, p1) {
                    None => None,
                    Some((o, p2)) => Some((Some(o), p2)),
                }
            } else {
                None
            }
        },
    }
}

#[verifier::loop_isolation(false)]
fn get_ctx(b: &Vec<u8>, pos: usize) -> (r: Option<(crate::oid::Context, usize)>)
    requires
        pos <= b@.len(),
    ensures
        r matches Some(p) ==> pos <= p.1 <= b@.len() && dec_ctx(b@.skip(pos as int)) == Some(
            (p.0@, b@.skip(p.1 as int)),
        ),
        r is None ==> dec_ctx(b@.skip(pos as int)) is None,
{
    let timeout_opt = match get_opt_u64(b, pos) {
        None => {
            return None;
        },
        Some(x) => x,
    };
    let (timeout, p1) = timeout_opt;
    let cookie_opt = match get_opt_u64(b, p1) {
        None => {
            return None;
        },
        Some(x) => x,
    };
    let (cookie, p2) = cookie_opt;
    let conn_opt = match get_opt_str(b, p2) {
        None => {
            return None;
        },
        Some(x) => x,
    };
    let (conn, p3) = conn_opt;
    let count_opt = match get_u64(b, p3) {
        None => {
            return None;
        },
        Some(x) => x,
    };
    let (count, p4) = count_opt;
    let ghost s4 = b@.skip(p4 as int);
    let mut attrs: Vec<(String, String)> = Vec::new();
    let mut pos_i: usize = p4;
    let mut i: u64 = 0;
    let ghost viewer = |q: (String, String)| (q.0@, q.1@);
    while i < count
        invariant
            i <= count,
            p4 <= pos_i <= b@.len(),
            viewer == (|q: (String, String)| (q.0@, q.1@)),
            attrs@.len() == i,
            ({
                match dec_attrs((count - i) as nat, b@.skip(pos_i as int)) {
                    None => dec_attrs(count as nat, s4) is None,
                    Some((t, rest)) => dec_attrs(count as nat, s4) matches Some(w) && w.0
                        == attrs@.map_values(viewer) + t && w.1 == rest,
                }
            }),
        decreases count - i,
    {
        let ghost pre_attrs = attrs@;
        let ghost pre_pos = pos_i as int;
        let k = match get_str(b, pos_i) {
            None => {
                proof {
                    assert(dec_attrs((count - i) as nat, b@.skip(pre_pos)) is None);
                    assert(dec_attrs(count as nat, s4) is None);
                    assert(dec_ctx(b@.skip(pos as int)) is None);
                }
                return None;
            },
            Some(x) => x,
        };
        let v = match get_str(b, k.1) {
            None => {
                proof {
                    assert(dec_attrs((count - i) as nat, b@.skip(pre_pos)) is None);
                    assert(dec_attrs(count as nat, s4) is None);
                    assert(dec_ctx(b@.skip(pos as int)) is None);
                }
                return None;
            },
            Some(x) => x,
        };
        pos_i = v.1;
        attrs.push((k.0, v.0));
        i = i + 1;
        proof {
            assert(attrs@.drop_last() =~= pre_attrs);
            let pair = (attrs@.last().0@, attrs@.last().1@);
            assert(attrs@.map_values(viewer) =~= pre_attrs.map_values(viewer).push(pair));
            match dec_attrs((count - i) as nat, b@.skip(pos_i as int)) {
                None => {
                    assert(dec_attrs((count - (i - 1)) as nat, b@.skip(pre_pos)) is None);
                },
                Some((t, rest)) => {
                    assert(dec_attrs((count - (i - 1)) as nat, b@.skip(pre_pos)) matches Some(q)
                        && q.0 == seq![pair] + t && q.1 == rest);
                    assert(pre_attrs.map_values(viewer) + (seq![pair] + t) =~= attrs@.map_values(
                        viewer,
                    ) + t);
                },
            }
        }
    }
    proof {
        assert(dec_attrs((count - i) as nat, b@.skip(pos_i as int)) == Some(
            (Seq::<(Seq<char>, Seq<char>)>::empty(), b@.skip(pos_i as int)),
        ));
        assert(attrs@.map_values(viewer) + Seq::<(Seq<char>, Seq<char>)>::empty()
            =~= attrs@.map_values(viewer));
    }
    let c = crate::oid::Context {
        timeout_millisecond: timeout,
        user_cookie: cookie,
        connection_id: conn,
        attributes: attrs,
    };
    proof {
        assert(c@.attributes =~= attrs@.map_values(viewer));
        match dec_attrs(count as nat, s4) {
            None => {
                assert(false);
            },
            Some(w) => {
                assert(w.0 == c@.attributes);
                assert(dec_ctx(b@.skip(pos as int)) == Some((c@, b@.skip(pos_i as int))));
            },
        }
    }
    Some((c, pos_i))
}

fn get_opt_ctx(b: &Vec<u8>, pos: usize) -> (r: Option<(Option<crate::oid::Context>, usize)>)
    requires
        pos <= b@.len(),
    ensures
        r matches Some(p) ==> pos <= p.1 <= b@.len() && ({
            let v = match p.0 {
                Some(ref c) => Some(c@),
                None => None,
            };
            dec_opt_ctx(b@.skip(pos as int)) == Some((v, b@.skip(p.1 as int)))
        }),
        r is None ==> dec_opt_ctx(b@.skip(pos as int)) is None,
{
    match get_byte(b, pos) {
        None => None,
        Some((t, p1)) => {
            if t == 0 {
                Some((None, p1))
            } else if t == 1 {
                match get_ctx(b, p1) {
                    None => None,
                    Some((c, p2)) => Some((Some(c), p2)),
                }
            } else {
                None
            }
        },
    }
}

/// Parses the canonical serialization of a record; `None` on anything
/// else, a trailing remainder included.
pub fn decode_record(b: &Vec<u8>) -> (r: Option<crate::servant::Record>)
    ensures
        ({
            match spec_decode_record(b@) {
                Some(v) => r matches Some(rec) && rec@ == v,
                None => r is None,
            }
        }),
{
    proof {
        assert(b@.skip(0) =~= b@);
    }
    let tag = match get_byte(b, 0) {
        None => {
            return None;
        },
        Some(x) => x,
    };
    let (t, p0) = tag;
    if t == 0 {
        let idp = match get_u64(b, p0) {
            None => {
                return None;
            },
            Some(x) => x,
        };
        let msgp = match get_bytes(b, idp.1) {
            None => {
                return None;
            },
            Some(x) => x,
        };
        if msgp.1 == b.len() {
            proof {
                assert(b@.skip(msgp.1 as int).len() == 0);
            }
            Some(crate::servant::Record::Notice { id: idp.0, msg: msgp.0 })
        } else {
            None
        }
    } else if t == 1 {
        let idp = match get_u64(b, p0) {
            None => {
                return None;
            },
            Some(x) => x,
        };
        let oidp = match get_oid(b, idp.1) {
            None => {
                return None;
            },
            Some(x) => x,
        };
        let msgp = match get_bytes(b, oidp.1) {
            None => {
                return None;
            },
            Some(x) => x,
        };
        if msgp.1 == b.len() {
            proof {
                assert(b@.skip(msgp.1 as int).len() == 0);
            }
            Some(crate::servant::Record::Report { id: idp.0, oid: oidp.0, msg: msgp.0 })
        } else {
            None
        }
    } else if t == 2 {
        let idp = match get_u64(b, p0) {
            None => {
                return None;
            },
            Some(x) => x,
        };
        let ctxp = match get_opt_ctx(b, idp.1) {
            None => {
                return None;
            },
            Some(x) => x,
        };
        let oidp = match get_opt_oid(b, ctxp.1) {
            None => {
                return None;
            },
            Some(x) => x,
        };
        let reqp = match get_bytes(b, oidp.1) {
            None => {
                return None;
            },
            Some(x) => x,
        };
        if reqp.1 == b.len() {
            proof {
                assert(b@.skip(reqp.1 as int).len() == 0);
            }
            Some(
                crate::servant::Record::Request {
                    id: idp.0,
                    ctx: ctxp.0,
                    oid: oidp.0,
                    req: reqp.0,
                },
            )
        } else {
            None
        }
    } else if t == 3 {
        let idp = match get_u64(b, p0) {
            None => {
                return None;
            },
            Some(x) => x,
        };
        let oidp = match get_opt_oid(b, idp.1) {
            None => {
                return None;
            },
            Some(x) => x,
        };
        let retp = match get_bytes(b, oidp.1) {
            None => {
                return None;
            },
            Some(x) => x,
        };
        if retp.1 == b.len() {
            proof {
                assert(b@.skip(retp.1 as int).len() == 0);
            }
            Some(crate::servant::Record::Response { id: idp.0, oid: oidp.0, ret: retp.0 })
        } else {
            None
        }
    } else {
        None
    }
}

/// Parses the canonical serialization of a call outcome.
pub fn decode_outcome(b: &Vec<u8>) -> (r: Option<Result<Vec<u8>, crate::oid::ServantError>>)
    ensures
        ({
            match spec_decode_outcome(b@) {
                Some(v) => r matches Some(out) && (match out {
                    Ok(bs) => v == Ok::<Seq<u8>, ServantErrorView>(bs@),
                    Err(e) => v == Err::<Seq<u8>, ServantErrorView>(e@),
                }),
                None => r is None,
            }
        }),
{
    proof {
        assert(b@.skip(0) =~= b@);
    }
    let tag = match get_byte(b, 0) {
        None => {
            return None;
        },
        Some(x) => x,
    };
    let (t, p0) = tag;
    if t == 0 {
        let bp = match get_bytes(b, p0) {
            None => {
                return None;
            },
            Some(x) => x,
        };
        if bp.1 == b.len() {
            proof {
                assert(b@.skip(bp.1 as int).len() == 0);
            }
            Some(Ok(bp.0))
        } else {
            None
        }
    } else if t == 1 {
        let etp = match get_byte(b, p0) {
            None => {
                return None;
            },
            Some(x) => x,
        };
        let (et, p1) = etp;
        if et == 0 {
            if p1 == b.len() {
                proof {
                    assert(b@.skip(p1 as int).len() == 0);
                }
                Some(Err(crate::oid::ServantError::NoSupportSerializable))
            } else {
                None
            }
        } else if et == 1 {
            if p1 == b.len() {
                proof {
                    assert(b@.skip(p1 as int).len() == 0);
                }
                Some(Err(crate::oid::ServantError::DuplicateOid))
            } else {
                None
            }
        } else if et == 2 {
            let sp = match get_str(b, p1) {
                None => {
                    return None;
                },
                Some(x) => x,
            };
            if sp.1 == b.len() {
                proof {
                    assert(b@.skip(sp.1 as int).len() == 0);
                }
                Some(Err(crate::oid::ServantError::Other(sp.0)))
            } else {
                None
            }
        } else {
            None
        }
    } else {
        None
    }
}

// ---- framing ------------------------------------------------------------

/// The 4-byte big-endian length header.
pub open spec fn spec_frame_header(n: u32) -> Seq<u8> {
    seq![
        ((n >> 24) & 0xff) as u8,
        ((n >> 16) & 0xff) as u8,
        ((n >> 8) & 0xff) as u8,
        (n & 0xff) as u8,
    ]
}

/// The value a 4-byte big-endian header denotes.
pub open spec fn spec_header_value(s: Seq<u8>) -> u32
    recommends
        s.len() == 4,
{
    ((s[0] as u32) << 24 | (s[1] as u32) << 16 | (s[2] as u32) << 8 | (s[3] as u32)) as u32
}

/// A framed payload: the header, then the payload itself.
pub open spec fn spec_frame(payload: Seq<u8>) -> Seq<u8> {
    spec_frame_header(payload.len() as u32) + payload
}

/// Reading the header of a frame gives the payload length back.
pub proof fn lemma_frame_round_trip(payload: Seq<u8>)
    requires
        payload.len() <= u32::MAX,
    ensures
        spec_header_value(spec_frame(payload).take(4)) == payload.len(),
        spec_frame(payload).skip(4) == payload,
        spec_frame(payload).len() == payload.len() + 4,
{
    let n = payload.len() as u32;
    assert(spec_frame(payload).take(4) =~= spec_frame_header(n));
    assert(spec_frame(payload).skip(4) =~= payload);
    let b0 = ((n >> 24) & 0xff) as u8;
    let b1 = ((n >> 16) & 0xff) as u8;
    let b2 = ((n >> 8) & 0xff) as u8;
    let b3 = (n & 0xff) as u8;
    assert(((b0 as u32) << 24 | (b1 as u32) << 16 | (b2 as u32) << 8 | (b3 as u32)) == n)
        by (bit_vector)
        requires
            b0 == ((n >> 24) & 0xff) as u8,
            b1 == ((n >> 16) & 0xff) as u8,
            b2 == ((n >> 8) & 0xff) as u8,
            b3 == (n & 0xff) as u8,
    ;
}

/// Wraps an encoded payload in a length frame; a payload too long for
/// the 4-byte header is refused.
pub fn frame_payload(payload: &Vec<u8>) -> (r: Option<Vec<u8>>)
    ensures
        payload@.len() <= u32::MAX ==> (r matches Some(f) && f@ == spec_frame(payload@)),
        payload@.len() > u32::MAX ==> r is None,
{
    if (payload.len() as u64) <= (u32::MAX as u64) {
        let n = payload.len() as u32;
        let mut out: Vec<u8> = Vec::new();
        out.push(((n >> 24) & 0xff) as u8);
        out.push(((n >> 16) & 0xff) as u8);
        out.push(((n >> 8) & 0xff) as u8);
        out.push((n & 0xff) as u8);
        let mut body = vstd::slice::slice_to_vec(payload.as_slice());
        out.append(&mut body);
        proof {
            assert(out@ =~= spec_frame(payload@));
        }
        Some(out)
    } else {
        None
    }
}

/// Reads the length out of a 4-byte frame header.
pub fn read_frame_header(h: &Vec<u8>) -> (n: u32)
    requires
        h@.len() == 4,
    ensures
        n == spec_header_value(h@),
{
    let b0 = h[0];
    let b1 = h[1];
    let b2 = h[2];
    let b3 = h[3];
    (b0 as u32) << 24 | (b1 as u32) << 16 | (b2 as u32) << 8 | (b3 as u32)
}

} // verus!