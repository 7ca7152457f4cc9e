use vstd::prelude::*;

use crate::de::{
    dec_bytestring, dec_digits_run, dec_int, dec_items, dec_pairs, dec_value, spec_from_bytes, Dec,
};
use crate::digits::{
    dec_digits, digit_run_len, digits_val, is_digit, lemma_dec_digits_shape, lemma_dec_digits_val,
    lemma_digit_run_append,
};
use crate::error::Error;
use crate::ser::{enc, enc_bytestring, enc_items_from, enc_pairs_from};
use crate::value::{
    bounded, canon, canon_pairs_upto, keys_sorted, lemma_canon_pairs, lemma_canon_wf,
    lemma_wf_canon_id, wf, ValueModel, TOK_COLON, TOK_DICT, TOK_END, TOK_INT, TOK_LIST, TOK_MINUS,
};

verus! {

/// The encoding of any value is at least two bytes long, and its first
/// byte announces the value's shape: a digit, `i`, `l` or `d` — never
/// the terminator `e`.
proof fn lemma_enc_first(v: ValueModel)
    ensures
        enc(v).len() >= 2,
        is_digit(enc(v)[0]) || enc(v)[0] == TOK_INT || enc(v)[0] == TOK_LIST || enc(v)[0]
            == TOK_DICT,
        enc(v)[0] != TOK_END,
{
    match v {
        ValueModel::Int { negative, magnitude } => {
            lemma_dec_digits_shape(magnitude as nat);
            assert(enc(v)[0] == TOK_INT);
        }
        ValueModel::Bytes(b) => {
            lemma_dec_digits_shape(b.len());
            assert(enc(v)[0] == dec_digits(b.len())[0]);
            assert(is_digit(dec_digits(b.len())[0]));
        }
        ValueModel::List(items) => {
            assert(enc(v)[0] == TOK_LIST);
        }
        ValueModel::Dict(ps) => {
            assert(enc(v)[0] == TOK_DICT);
        }
    }
}

/// Reading back the minimal decimal form of a 64-bit number gives that
/// number and stops exactly at the first byte after it.
proof fn lemma_dec_digits_of(n: u64, rest: Seq<u8>)
    requires
        rest.len() == 0 || !is_digit(rest[0]),
    ensures
        dec_digits_run(dec_digits(n as nat) + rest) == Dec::<u64>::Found(n, rest),
{
    let d = dec_digits(n as nat);
    let s = d + rest;
    lemma_dec_digits_shape(n as nat);
    lemma_dec_digits_val(n as nat);
    lemma_digit_run_append(d, rest);
    assert(s[0] == d[0]);
    assert(is_digit(s[0]));
    let k = digit_run_len(s);
    assert(k == d.len());
    assert(s.take(k) =~= d);
    assert(digits_val(s.take(k)) == n);
    assert(s.skip(k) =~= rest);
}

/// Reading back the wire form of a byte string gives its bytes and
/// stops exactly after them.
proof fn lemma_dec_bytestring_of(b: Seq<u8>, rest: Seq<u8>)
    requires
        b.len() <= u64::MAX,
    ensures
        dec_bytestring(enc_bytestring(b) + rest) == Dec::<Seq<u8>>::Found(b, rest),
{
    let s = enc_bytestring(b) + rest;
    let tail = seq![TOK_COLON] + b + rest;
    let n = b.len() as u64;
    assert(dec_digits(b.len()) == dec_digits(n as nat));
    assert(s =~= dec_digits(n as nat) + tail);
    assert(tail[0] == TOK_COLON);
    assert(!is_digit(tail[0]));
    lemma_dec_digits_of(n, tail);
    assert(dec_digits_run(s) == Dec::<u64>::Found(n, tail));
    assert(tail.len() - 1 >= n);
    assert(tail.subrange(1, n as int + 1) =~= b);
    assert(tail.skip(n as int + 1) =~= rest);
}

/// Reading back the encoding of a normalized integer gives it back and
/// stops exactly after its `e`.
proof fn lemma_dec_int_of(negative: bool, magnitude: u64, rest: Seq<u8>)
    requires
        negative ==> magnitude >= 1,
    ensures
        dec_int(enc(ValueModel::Int { negative, magnitude }) + rest) == Dec::<ValueModel>::Found(
            ValueModel::Int { negative, magnitude },
            rest,
        ),
{
    let v = ValueModel::Int { negative, magnitude };
    let s = enc(v) + rest;
    let t = s.skip(1);
    let digits = dec_digits(magnitude as nat);
    let after = seq![TOK_END] + rest;
    lemma_dec_digits_shape(magnitude as nat);
    if negative {
        assert(t =~= seq![TOK_MINUS] + (digits + after));
        assert(t[0] == TOK_MINUS);
        assert(t.skip(1) =~= digits + after);
    } else {
        assert(t =~= digits + after);
        assert(t[0] == digits[0]);
        assert(is_digit(t[0]));
        assert(t[0] != TOK_MINUS);
    }
    let u = if negative {
        t.skip(1)
    } else {
        t
    };
    assert(u =~= digits + after);
    assert(after[0] == TOK_END);
    assert(!is_digit(after[0]));
    lemma_dec_digits_of(magnitude, after);
    assert(dec_digits_run(u) == Dec::<u64>::Found(magnitude, after));
    assert(after.skip(1) =~= rest);
    assert((negative && magnitude >= 1) == negative);
}

/// Decoding the canonical encoding of a well-formed value, followed by
/// any suffix, yields the value and leaves exactly that suffix.
pub proof fn lemma_dec_enc(v: ValueModel, rest: Seq<u8>)
    requires
        wf(v),
        bounded(v),
    ensures
        dec_value(enc(v) + rest) == Dec::<ValueModel>::Found(v, rest),
    decreases v,
{
    let s = enc(v) + rest;
    lemma_enc_first(v);
    assert(s[0] == enc(v)[0]);
    match v {
        ValueModel::Int { negative, magnitude } => {
            assert(s[0] == TOK_INT);
            assert(!is_digit(s[0]));
            lemma_dec_int_of(negative, magnitude, rest);
        }
        ValueModel::Bytes(b) => {
            assert(enc(v) == enc_bytestring(b));
            lemma_dec_digits_shape(b.len());
            assert(enc_bytestring(b)[0] == dec_digits(b.len())[0]);
            assert(is_digit(s[0]));
            lemma_dec_bytestring_of(b, rest);
        }
        ValueModel::List(items) => {
            assert(s[0] == TOK_LIST);
            assert(!is_digit(s[0]));
            assert(s.skip(1) =~= enc_items_from(items, 0) + seq![TOK_END] + rest);
            lemma_dec_enc_items(items, 0, rest);
            assert(items.skip(0) =~= items);
        }
        ValueModel::Dict(ps) => {
            assert(s[0] == TOK_DICT);
            assert(!is_digit(s[0]));
            assert(s.skip(1) =~= enc_pairs_from(ps, 0) + seq![TOK_END] + rest);
            lemma_dec_enc_pairs(ps, 0, rest);
            assert(ps.skip(0) =~= ps);
        }
    }
}

/// Decoding the encodings of the items from position `i` on, followed
/// by the list terminator, yields exactly those items.
proof fn lemma_dec_enc_items(items: Seq<ValueModel>, i: int, rest: Seq<u8>)
    requires
        0 <= i <= items.len(),
        forall|k: int| 0 <= k < items.len() ==> wf(#[trigger] items[k]),
        forall|k: int| 0 <= k < items.len() ==> bounded(#[trigger] items[k]),
    ensures
        dec_items(enc_items_from(items, i) + seq![TOK_END] + rest) == Dec::<
            Seq<ValueModel>,
        >::Found(items.skip(i), rest),
    decreases items, items.len() - i,
{
    let s = enc_items_from(items, i) + seq![TOK_END] + rest;
    if i == items.len() {
        assert(s =~= seq![TOK_END] + rest);
        assert(s[0] == TOK_END);
        assert(s.skip(1) =~= rest);
        assert(items.skip(i) =~= Seq::<ValueModel>::empty());
    } else {
        let tail = enc_items_from(items, i + 1) + seq![TOK_END] + rest;
        assert(enc_items_from(items, i) == enc(items[i]) + enc_items_from(items, i + 1));
        assert(s =~= enc(items[i]) + tail);
        lemma_enc_first(items[i]);
        assert(s[0] == enc(items[i])[0]);
        assert(s[0] != TOK_END);
        lemma_dec_enc(items[i], tail);
        assert(dec_value(s) == Dec::<ValueModel>::Found(items[i], tail));
        assert(tail.len() < s.len());
        lemma_dec_enc_items(items, i + 1, rest);
        assert(dec_items(tail) == Dec::<Seq<ValueModel>>::Found(items.skip(i + 1), rest));
        assert(seq![items[i]] + items.skip(i + 1) =~= items.skip(i));
    }
}

/// Decoding the encodings of the pairs from position `i` on, followed
/// by the dictionary terminator, yields exactly those pairs.
proof fn lemma_dec_enc_pairs(ps: Seq<(Seq<u8>, ValueModel)>, i: int, rest: Seq<u8>)
    requires
        0 <= i <= ps.len(),
        forall|k: int|
            0 <= k < ps.len() ==> (#[trigger] ps[k]).0.len() <= u64::MAX && wf(ps[k].1) && bounded(
                ps[k].1,
            ),
    ensures
        dec_pairs(enc_pairs_from(ps, i) + seq![TOK_END] + rest) == Dec::<
            Seq<(Seq<u8>, ValueModel)>,
        >::Found(ps.skip(i), rest),
    decreases ps, ps.len() - i,
{
    let s = enc_pairs_from(ps, i) + seq![TOK_END] + rest;
    if i == ps.len() {
        assert(s =~= seq![TOK_END] + rest);
        assert(s[0] == TOK_END);
        assert(s.skip(1) =~= rest);
        assert(ps.skip(i) =~= Seq::<(Seq<u8>, ValueModel)>::empty());
    } else {
        let key = ps[i].0;
        let val = ps[i].1;
        let tail1 = enc(val) + enc_pairs_from(ps, i + 1) + seq![TOK_END] + rest;
        let tail2 = enc_pairs_from(ps, i + 1) + seq![TOK_END] + rest;
        assert(enc_pairs_from(ps, i) == enc_bytestring(key) + enc(val) + enc_pairs_from(
            ps,
            i + 1,
        ));
        assert(s =~= enc_bytestring(key) + tail1);
        lemma_dec_digits_shape(key.len());
        assert(enc_bytestring(key)[0] == dec_digits(key.len())[0]);
        assert(s[0] == enc_bytestring(key)[0]);
        assert(is_digit(s[0]));
        assert(s[0] != TOK_END);
        lemma_dec_bytestring_of(key, tail1);
        assert(dec_bytestring(s) == Dec::<Seq<u8>>::Found(key, tail1));
        assert(enc_bytestring(key).len() >= 2) by {
            lemma_dec_digits_shape(key.len());
        }
        assert(tail1.len() < s.len());
        assert(tail1 =~= enc(val) + tail2);
        lemma_dec_enc(val, tail2);
        assert(dec_value(tail1) == Dec::<ValueModel>::Found(val, tail2));
        lemma_enc_first(val);
        assert(tail2.len() < s.len());
        lemma_dec_enc_pairs(ps, i + 1, rest);
        assert(dec_pairs(tail2) == Dec::<Seq<(Seq<u8>, ValueModel)>>::Found(ps.skip(i + 1), rest));
        assert(seq![(key, val)] + ps.skip(i + 1) =~= ps.skip(i));
    }
}

/// Codec round trip: decoding the canonical encoding of a well-formed
/// value gives exactly that value back.
pub proof fn lemma_round_trip(v: ValueModel)
    requires
        wf(v),
        bounded(v),
    ensures
        spec_from_bytes(enc(v)) == Ok::<ValueModel, Error>(v),
{
    lemma_dec_enc(v, Seq::empty());
    assert(enc(v) + Seq::<u8>::empty() =~= enc(v));
}

/// Codec round trip for every value: what the encoder emits for any
/// value decodes to that value's canonical form.  For a well-formed
/// value the canonical form is the value itself.
pub proof fn lemma_decode_encode(v: ValueModel)
    requires
        bounded(v),
    ensures
        spec_from_bytes(enc(canon(v))) == Ok::<ValueModel, Error>(canon(v)),
        wf(v) ==> canon(v) == v,
{
    lemma_canon_wf(v);
    lemma_round_trip(canon(v));
    if wf(v) {
        lemma_wf_canon_id(v);
    }
}

/// Canonical encoding idempotence: re-encoding what a canonical
/// encoding decodes to reproduces the same bytes exactly.
pub proof fn lemma_encode_idempotent(v: ValueModel)
    requires
        bounded(v),
    ensures
        spec_from_bytes(enc(canon(v))) matches Ok(w) && enc(canon(w)) == enc(canon(v)),
{
    lemma_decode_encode(v);
    lemma_canon_wf(v);
    lemma_wf_canon_id(canon(v));
}

/// Trailing-bytes rejection: any non-empty suffix after a complete
/// encoded value makes the whole-buffer decode fail with
/// `TrailingCharacters`.
pub proof fn lemma_trailing_rejected(v: ValueModel, extra: Seq<u8>)
    requires
        wf(v),
        bounded(v),
        extra.len() > 0,
    ensures
        spec_from_bytes(enc(v) + extra) == Err::<ValueModel, Error>(Error::TrailingCharacters),
{
    lemma_dec_enc(v, extra);
}

/// Key-sort property: whatever order a dictionary's pairs were built
/// in, the encoder emits the pairs of a strictly key-sorted sequence.
pub proof fn lemma_dict_encoding_sorted(ps: Seq<(Seq<u8>, ValueModel)>)
    ensures
        keys_sorted(canon_pairs_upto(ps, ps.len() as int)),
        enc(canon(ValueModel::Dict(ps))) == seq![TOK_DICT] + enc_pairs_from(
            canon_pairs_upto(ps, ps.len() as int),
            0,
        ) + seq![TOK_END],
{
    lemma_canon_pairs(ps, ps.len() as int);
}

} // verus!
