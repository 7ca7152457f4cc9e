use vstd::prelude::*;

use crate::digits::{dec_digits, push_decimal};
use crate::order::{lex_compare, lex_lt, lemma_lex_total, KeyOrder};
use crate::value::{
    canon, canon_items_upto, canon_pairs_upto, insert_pair, insert_pos, lemma_canon_items,
    lemma_insert_pair_shape, lemma_vm_items, lemma_vm_pairs, vm_items, vm_pairs, Value, ValueModel,
    TOK_COLON, TOK_DICT, TOK_END, TOK_INT, TOK_LIST, TOK_MINUS,
};

verus! {

/// The wire bytes of a byte string: decimal length, `:`, the raw bytes.
pub open spec fn enc_bytestring(b: Seq<u8>) -> Seq<u8> {
    dec_digits(b.len()) + seq![TOK_COLON] + b
}

/// The canonical wire bytes of a value.  On integers this assumes the
/// normalized sign `canon` establishes; dictionaries are emitted pair by
/// pair, so it yields the canonical encoding exactly of values whose
/// dictionaries are already sorted (which `canon` also establishes).
pub open spec fn enc(v: ValueModel) -> Seq<u8>
    decreases v,
{
    match v {
        ValueModel::Int { negative, magnitude } => seq![TOK_INT] + (if negative {
            seq![TOK_MINUS]
        } else {
            Seq::empty()
        }) + dec_digits(magnitude as nat) + seq![TOK_END],
        ValueModel::Bytes(b) => enc_bytestring(b),
        ValueModel::List(items) => seq![TOK_LIST] + enc_items_from(items, 0) + seq![TOK_END],
        ValueModel::Dict(ps) => seq![TOK_DICT] + enc_pairs_from(ps, 0) + seq![TOK_END],
    }
}

/// The concatenated encodings of the elements from position `i` on.
pub open spec fn enc_items_from(s: Seq<ValueModel>, i: int) -> Seq<u8>
    decreases s, s.len() - i,
{
    if i < 0 || i >= s.len() {
        Seq::empty()
    } else {
        enc(s[i]) + enc_items_from(s, i + 1)
    }
}

/// The concatenated encodings of the pairs from position `i` on: each key
/// as a byte string, immediately followed by its value.
pub open spec fn enc_pairs_from(s: Seq<(Seq<u8>, ValueModel)>, i: int) -> Seq<u8>
    decreases s, s.len() - i,
{
    if i < 0 || i >= s.len() {
        Seq::empty()
    } else {
        enc_bytestring(s[i].0) + enc(s[i].1) + enc_pairs_from(s, i + 1)
    }
}

/// Appends a byte slice to a buffer.
pub fn push_bytes(out: &mut Vec<u8>, b: &[u8])
    ensures
        final(out)@ == old(out)@ + b@,
{
    let mut i: usize = 0;
    while i < b.len()
        invariant
            0 <= i <= b@.len(),
            out@ == old(out)@ + b@.take(i as int),
        decreases b@.len() - i,
    {
        out.push(b[i]);
        assert(out@ =~= old(out)@ + b@.take(i + 1));
        i = i + 1;
    }
    assert(b@.take(b@.len() as int) =~= b@);
}

/// Appends the wire form of a byte string.
pub fn encode_bytestring(out: &mut Vec<u8>, b: &[u8])
    ensures
        final(out)@ == old(out)@ + enc_bytestring(b@),
{
    push_decimal(out, b.len() as u64);
    out.push(TOK_COLON);
    push_bytes(out, b);
    assert(out@ =~= old(out)@ + enc_bytestring(b@));
}

/// Appends the canonical encoding of `v`: integers in minimal form,
/// every dictionary sorted by raw key bytes with the last binding of a
/// key winning.
#[verifier::loop_isolation(false)]
pub fn encode_value(out: &mut Vec<u8>, v: &Value)
    ensures
        final(out)@ == old(out)@ + enc(canon(v@)),
    decreases v,
{
    match v {
        Value::Int { negative, magnitude } => {
            out.push(TOK_INT);
            if *negative && *magnitude >= 1 {
                out.push(TOK_MINUS);
            }
            push_decimal(out, *magnitude);
            out.push(TOK_END);
            assert(out@ =~= old(out)@ + enc(canon(v@)));
        }
        Value::Bytes(b) => {
            encode_bytestring(out, b.as_slice());
            assert(enc(canon(v@)) == enc_bytestring(b@));
        }
        Value::List(items) => {
            let ghost m = vm_items(items@);
            let ghost cm = canon_items_upto(m, m.len() as int);
            proof {
                lemma_vm_items(items@, items@.len() as int);
                lemma_canon_items(m, m.len() as int);
            }
            out.push(TOK_LIST);
            let ghost base = out@;
            let mut i: usize = 0;
            while i < items.len()
                invariant
                    0 <= i <= items@.len(),
                    m == vm_items(items@),
                    cm == canon_items_upto(m, m.len() as int),
                    m.len() == items@.len(),
                    cm.len() == items@.len(),
                    forall|k: int| 0 <= k < m.len() ==> #[trigger] m[k] == items@[k].vm(),
                    forall|k: int| 0 <= k < cm.len() ==> #[trigger] cm[k] == canon(m[k]),
                    out@ + enc_items_from(cm, i as int) == base + enc_items_from(cm, 0),
                decreases items@.len() - i,
            {
                encode_value(out, &items[i]);
                proof {
                    assert(enc_items_from(cm, i as int) == enc(cm[i as int]) + enc_items_from(
                        cm,
                        i + 1,
                    ));
                    assert(out@ + enc_items_from(cm, i + 1) =~= base + enc_items_from(cm, 0));
                }
                i = i + 1;
            }
            out.push(TOK_END);
            proof {
                assert(enc_items_from(cm, items@.len() as int) =~= Seq::<u8>::empty());
                assert(out@ =~= base + enc_items_from(cm, 0) + seq![TOK_END]);
                assert(canon(v@) == ValueModel::List(cm));
                assert(out@ =~= old(out)@ + enc(canon(v@)));
            }
        }
        Value::Dict(pairs) => {
            let ghost mp = vm_pairs(pairs@);
            proof {
                lemma_vm_pairs(pairs@, pairs@.len() as int);
            }
            // Collect each pair's wire bytes, sorted by raw key with the
            // last binding of an equal key replacing the earlier one.
            let mut blobs: Vec<(Vec<u8>, Vec<u8>)> = Vec::new();
            let mut i: usize = 0;
            while i < pairs.len()
                invariant
                    0 <= i <= pairs@.len(),
                    mp == vm_pairs(pairs@),
                    mp.len() == pairs@.len(),
                    forall|k: int| 0 <= k < mp.len() ==> #[trigger] mp[k] == (
                        pairs@[k].0@,
                        pairs@[k].1.vm(),
                    ),
                    blobs@.len() == canon_pairs_upto(mp, i as int).len(),
                    forall|k: int|
                        0 <= k < blobs@.len() ==> (#[trigger] blobs@[k]).0@ == canon_pairs_upto(
                            mp,
                            i as int,
                        )[k].0 && blobs@[k].1@ == enc_bytestring(
                            canon_pairs_upto(mp, i as int)[k].0,
                        ) + enc(canon_pairs_upto(mp, i as int)[k].1),
                decreases pairs@.len() - i,
            {
                let ghost cp = canon_pairs_upto(mp, i as int);
                let pair = &pairs[i];
                let key: Vec<u8> = vstd::slice::slice_to_vec(pair.0.as_slice());
                let mut blob: Vec<u8> = Vec::new();
                encode_bytestring(&mut blob, pair.0.as_slice());
                encode_value(&mut blob, &pair.1);
                proof {
                    assert(key@ == mp[i as int].0);
                    assert(blob@ == enc_bytestring(mp[i as int].0) + enc(canon(mp[i as int].1)));
                }
                insert_blob(&mut blobs, key, blob, Ghost(cp), Ghost(mp[i as int].0), Ghost(
                    canon(mp[i as int].1),
                ));
                proof {
                    assert(canon_pairs_upto(mp, i + 1) == insert_pair(
                        cp,
                        mp[i as int].0,
                        canon(mp[i as int].1),
                    ));
                }
                i = i + 1;
            }
            let ghost cp = canon_pairs_upto(mp, pairs@.len() as int);
            out.push(TOK_DICT);
            let ghost base = out@;
            let mut j: usize = 0;
            while j < blobs.len()
                invariant
                    0 <= j <= blobs@.len(),
                    cp.len() == blobs@.len(),
                    forall|k: int|
                        0 <= k < blobs@.len() ==> (#[trigger] blobs@[k]).1@ == enc_bytestring(
                            cp[k].0,
                        ) + enc(cp[k].1),
                    out@ + enc_pairs_from(cp, j as int) == base + enc_pairs_from(cp, 0),
                decreases blobs@.len() - j,
            {
                push_bytes(out, blobs[j].1.as_slice());
                proof {
                    assert(enc_pairs_from(cp, j as int) == enc_bytestring(cp[j as int].0) + enc(
                        cp[j as int].1,
                    ) + enc_pairs_from(cp, j + 1));
                    assert(out@ + enc_pairs_from(cp, j + 1) =~= base + enc_pairs_from(cp, 0));
                }
                j = j + 1;
            }
            out.push(TOK_END);
            proof {
                assert(enc_pairs_from(cp, cp.len() as int) =~= Seq::<u8>::empty());
                assert(out@ =~= base + enc_pairs_from(cp, 0) + seq![TOK_END]);
                assert(canon(v@) == ValueModel::Dict(cp));
                assert(out@ =~= old(out)@ + enc(canon(v@)));
            }
        }
    }
}

/// Inserts one pair's wire bytes into the blob list kept sorted by raw
/// key, replacing the blob of an equal key, so that the list mirrors
/// `insert_pair` on the modelled pairs.
fn insert_blob(
    blobs: &mut Vec<(Vec<u8>, Vec<u8>)>,
    key: Vec<u8>,
    blob: Vec<u8>,
    Ghost(cp): Ghost<Seq<(Seq<u8>, ValueModel)>>,
    Ghost(mk): Ghost<Seq<u8>>,
    Ghost(mv): Ghost<ValueModel>,
)
    requires
        old(blobs)@.len() == cp.len(),
        forall|k: int|
            0 <= k < cp.len() ==> (#[trigger] old(blobs)@[k]).0@ == cp[k].0
                && old(blobs)@[k].1@ == enc_bytestring(cp[k].0) + enc(cp[k].1),
        key@ == mk,
        blob@ == enc_bytestring(mk) + enc(mv),
    ensures
        final(blobs)@.len() == insert_pair(cp, mk, mv).len(),
        forall|k: int|
            0 <= k < final(blobs)@.len() ==> (#[trigger] final(blobs)@[k]).0@ == insert_pair(
                cp,
                mk,
                mv,
            )[k].0 && final(blobs)@[k].1@ == enc_bytestring(insert_pair(cp, mk, mv)[k].0) + enc(
                insert_pair(cp, mk, mv)[k].1,
            ),
{
    proof {
        lemma_insert_pair_shape(cp, mk, mv);
    }
    let mut i: usize = 0;
    loop
        invariant
            blobs == old(blobs),
            0 <= i <= blobs@.len(),
            blobs@.len() == cp.len(),
            forall|k: int|
                0 <= k < cp.len() ==> (#[trigger] blobs@[k]).0@ == cp[k].0 && blobs@[k].1@
                    == enc_bytestring(cp[k].0) + enc(cp[k].1),
            key@ == mk,
            forall|j: int| 0 <= j < i ==> lex_lt(#[trigger] cp[j].0, mk),
        ensures
            blobs == old(blobs),
            0 <= i <= blobs@.len(),
            forall|j: int| 0 <= j < i ==> lex_lt(#[trigger] cp[j].0, mk),
            i < cp.len() ==> !lex_lt(cp[i as int].0, mk),
            i as int == insert_pos(cp, mk),
        decreases blobs@.len() - i,
    {
        if i >= blobs.len() {
            proof {
                crate::value::lemma_insert_pos_is(cp, mk, i as int);
            }
            break ;
        }
        let o = lex_compare(&blobs[i].0, &key);
        if !matches!(o, KeyOrder::Less) {
            proof {
                crate::value::lemma_insert_pos_is(cp, mk, i as int);
            }
            break ;
        }
        i = i + 1;
    }
    let ghost j = insert_pos(cp, mk);
    let ghost r = insert_pair(cp, mk, mv);
    if i < blobs.len() {
        let o = lex_compare(&blobs[i].0, &key);
        if matches!(o, KeyOrder::Equal) {
            blobs.remove(i);
            blobs.insert(i, (key, blob));
            proof {
                assert(r =~= cp.take(j).push((mk, mv)) + cp.skip(j + 1));
                assert forall|k: int| 0 <= k < blobs@.len() implies (#[trigger] blobs@[k]).0@
                    == r[k].0 && blobs@[k].1@ == enc_bytestring(r[k].0) + enc(r[k].1) by {
                    if k < j {
                        assert(blobs@[k] == old(blobs)@[k]);
                        assert(r[k] == cp[k]);
                    } else if k > j {
                        assert(blobs@[k] == old(blobs)@[k]);
                        assert(r[k] == cp[k]);
                    }
                }
            }
            return ;
        }
    }
    proof {
        if i < cp.len() {
            lemma_lex_total(cp[i as int].0, mk);
        }
        assert(!(j < cp.len() && cp[j].0 == mk));
        assert(r =~= cp.take(j).push((mk, mv)) + cp.skip(j));
    }
    blobs.insert(i, (key, blob));
    proof {
        assert forall|k: int| 0 <= k < blobs@.len() implies (#[trigger] blobs@[k]).0@ == r[k].0
            && blobs@[k].1@ == enc_bytestring(r[k].0) + enc(r[k].1) by {
            if k < j {
                assert(blobs@[k] == old(blobs)@[k]);
                assert(r[k] == cp[k]);
            } else if k > j {
                assert(blobs@[k] == old(blobs)@[k - 1]);
                assert(r[k] == cp[k - 1]);
            }
        }
    }
}

/// A bencoding encoder that accumulates output in a byte buffer.
pub struct Serializer {
    /// The bytes emitted so far.
    pub output: Vec<u8>,
}

impl Serializer {
    /// A fresh encoder with an empty output buffer.
    pub fn new() -> (s: Serializer)
        ensures
            s.output@ == Seq::<u8>::empty(),
    {
        Serializer { output: Vec::new() }
    }

    /// Appends the canonical encoding of `v` to the output.
    pub fn serialize_value(&mut self, v: &Value)
        ensures
            final(self).output@ == old(self).output@ + enc(canon(v@)),
    {
        encode_value(&mut self.output, v);
    }
}

/// Encodes a value to its canonical bencoding: dictionary keys sorted
/// ascending by raw key bytes, integers in minimal decimal form.
pub fn to_bytes(v: &Value) -> (r: Vec<u8>)
    ensures
        r@ == enc(canon(v@)),
{
    let mut out: Vec<u8> = Vec::new();
    encode_value(&mut out, v);
    out
}

} // verus!
