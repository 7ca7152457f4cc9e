use vstd::prelude::*;

use crate::order::{lex_compare, lex_lt, lemma_lex_total, lemma_lex_trans, KeyOrder};

verus! {

/// Token byte that opens an integer (`i`).
pub const TOK_INT: u8 = 0x69;

/// Token byte that opens a list (`l`).
pub const TOK_LIST: u8 = 0x6c;

/// Token byte that opens a dictionary (`d`).
pub const TOK_DICT: u8 = 0x64;

/// Token byte that closes an integer, list or dictionary (`e`).
pub const TOK_END: u8 = 0x65;

/// Separator between a byte string's length and its contents (`:`).
pub const TOK_COLON: u8 = 0x3a;

/// Sign byte of a negative integer (`-`).
pub const TOK_MINUS: u8 = 0x2d;

/// A bencoding value.
///
/// Integers are kept as a sign and a 64-bit magnitude, which covers every
/// width the schema layer exposes (`u64` as well as `i64` and narrower).
/// Dictionary pairs are kept in the order they were built or read;
/// encoding canonicalizes them.
#[derive(Debug, PartialEq)]
pub enum Value {
    /// `i...e` on the wire.
    Int { negative: bool, magnitude: u64 },
    /// `<len>:<bytes>` on the wire.
    Bytes(Vec<u8>),
    /// `l...e` on the wire.
    List(Vec<Value>),
    /// `d...e` on the wire: raw key bytes paired with values.
    Dict(Vec<(Vec<u8>, Value)>),
}

/// The mathematical model of a bencoding value.
#[verifier::ext_equal]
pub enum ValueModel {
    Int { negative: bool, magnitude: u64 },
    Bytes(Seq<u8>),
    List(Seq<ValueModel>),
    Dict(Seq<(Seq<u8>, ValueModel)>),
}

/// The models of the first `n` elements of a sequence of values.
pub open spec fn vm_items_upto(s: Seq<Value>, n: int) -> Seq<ValueModel>
    decreases s, n,
{
    if n <= 0 || n > s.len() {
        Seq::empty()
    } else {
        vm_items_upto(s, n - 1).push(s[n - 1].vm())
    }
}

/// The models of the first `n` pairs of a sequence of dictionary pairs.
pub open spec fn vm_pairs_upto(s: Seq<(Vec<u8>, Value)>, n: int) -> Seq<(Seq<u8>, ValueModel)>
    decreases s, n,
{
    if n <= 0 || n > s.len() {
        Seq::empty()
    } else {
        vm_pairs_upto(s, n - 1).push((s[n - 1].0@, s[n - 1].1.vm()))
    }
}

/// The models of all elements of a sequence of values.
pub open spec fn vm_items(s: Seq<Value>) -> Seq<ValueModel> {
    vm_items_upto(s, s.len() as int)
}

/// The models of all pairs of a sequence of dictionary pairs.
pub open spec fn vm_pairs(s: Seq<(Vec<u8>, Value)>) -> Seq<(Seq<u8>, ValueModel)> {
    vm_pairs_upto(s, s.len() as int)
}

impl Value {
    /// The mathematical model of this value.
    pub open spec fn vm(self) -> ValueModel
        decreases self,
    {
        match self {
            Value::Int { negative, magnitude } => ValueModel::Int { negative, magnitude },
            Value::Bytes(b) => ValueModel::Bytes(b@),
            Value::List(items) => ValueModel::List(vm_items_upto(items@, items@.len() as int)),
            Value::Dict(pairs) => ValueModel::Dict(vm_pairs_upto(pairs@, pairs@.len() as int)),
        }
    }
}

impl View for Value {
    type V = ValueModel;

    open spec fn view(&self) -> ValueModel {
        self.vm()
    }
}

/// The model of a value sequence is pointwise the model of its elements.
pub proof fn lemma_vm_items(s: Seq<Value>, n: int)
    requires
        0 <= n <= s.len(),
    ensures
        vm_items_upto(s, n).len() == n,
        forall|i: int| 0 <= i < n ==> #[trigger] vm_items_upto(s, n)[i] == s[i].vm(),
    decreases n,
{
    if n > 0 {
        lemma_vm_items(s, n - 1);
    }
}

/// The model of a pair sequence is pointwise the model of its pairs.
pub proof fn lemma_vm_pairs(s: Seq<(Vec<u8>, Value)>, n: int)
    requires
        0 <= n <= s.len(),
    ensures
        vm_pairs_upto(s, n).len() == n,
        forall|i: int|
            0 <= i < n ==> #[trigger] vm_pairs_upto(s, n)[i] == (s[i].0@, s[i].1.vm()),
    decreases n,
{
    if n > 0 {
        lemma_vm_pairs(s, n - 1);
    }
}

/// Dictionary keys strictly ascend in the raw lexicographic byte order.
/// Strict ascent also rules out duplicate keys.
pub open spec fn keys_sorted(ps: Seq<(Seq<u8>, ValueModel)>) -> bool {
    forall|i: int, j: int|
        0 <= i < j < ps.len() ==> lex_lt(#[trigger] ps[i].0, #[trigger] ps[j].0)
}

/// Every byte string and dictionary key in the value is short enough for
/// its length to be written as a 64-bit number.  Values built at run time
/// always satisfy this.
pub open spec fn bounded(v: ValueModel) -> bool
    decreases v,
{
    match v {
        ValueModel::Int { .. } => true,
        ValueModel::Bytes(b) => b.len() <= u64::MAX,
        ValueModel::List(items) => forall|i: int|
            0 <= i < items.len() ==> bounded(#[trigger] items[i]),
        ValueModel::Dict(ps) => forall|i: int|
            0 <= i < ps.len() ==> (#[trigger] ps[i]).0.len() <= u64::MAX && bounded(ps[i].1),
    }
}

/// A canonical value: integers carry no negative zero, and every
/// dictionary lists its pairs sorted by raw key bytes, without duplicates.
/// Encoding a well-formed value and decoding the result gives the value
/// back unchanged.
pub open spec fn wf(v: ValueModel) -> bool
    decreases v,
{
    match v {
        ValueModel::Int { negative, magnitude } => negative ==> magnitude >= 1,
        ValueModel::Bytes(_) => true,
        ValueModel::List(items) => forall|i: int|
            0 <= i < items.len() ==> wf(#[trigger] items[i]),
        ValueModel::Dict(ps) => keys_sorted(ps) && forall|i: int|
            0 <= i < ps.len() ==> wf((#[trigger] ps[i]).1),
    }
}

/// Where a key lands when inserted in sorted order: the number of leading
/// pairs whose keys are strictly below it.
pub open spec fn insert_pos(ps: Seq<(Seq<u8>, ValueModel)>, k: Seq<u8>) -> int
    decreases ps.len(),
{
    if ps.len() == 0 {
        0
    } else if lex_lt(ps[0].0, k) {
        1 + insert_pos(ps.drop_first(), k)
    } else {
        0
    }
}

/// Inserts a pair into a key-sorted pair sequence, replacing the pair of
/// an equal key (so that the later binding of a key wins).
pub open spec fn insert_pair(
    ps: Seq<(Seq<u8>, ValueModel)>,
    k: Seq<u8>,
    v: ValueModel,
) -> Seq<(Seq<u8>, ValueModel)>
    decreases ps.len(),
{
    if ps.len() == 0 {
        seq![(k, v)]
    } else if lex_lt(ps[0].0, k) {
        seq![ps[0]] + insert_pair(ps.drop_first(), k, v)
    } else if ps[0].0 == k {
        seq![(k, v)] + ps.drop_first()
    } else {
        seq![(k, v)] + ps
    }
}

/// Spells out `insert_pair` by position: the new pair lands at
/// `insert_pos`, and a pair with an equal key there is replaced.
pub proof fn lemma_insert_pair_shape(ps: Seq<(Seq<u8>, ValueModel)>, k: Seq<u8>, v: ValueModel)
    ensures
        0 <= insert_pos(ps, k) <= ps.len(),
        forall|i: int| 0 <= i < insert_pos(ps, k) ==> lex_lt(#[trigger] ps[i].0, k),
        insert_pos(ps, k) < ps.len() ==> !lex_lt(ps[insert_pos(ps, k)].0, k),
        insert_pair(ps, k, v) == if insert_pos(ps, k) < ps.len() && ps[insert_pos(ps, k)].0 == k {
            ps.take(insert_pos(ps, k)).push((k, v)) + ps.skip(insert_pos(ps, k) + 1)
        } else {
            ps.take(insert_pos(ps, k)).push((k, v)) + ps.skip(insert_pos(ps, k))
        },
    decreases ps.len(),
{
    if ps.len() == 0 {
        assert(insert_pair(ps, k, v) =~= ps.take(0).push((k, v)) + ps.skip(0));
    } else if lex_lt(ps[0].0, k) {
        lemma_insert_pair_shape(ps.drop_first(), k, v);
        let j = insert_pos(ps, k);
        let jr = insert_pos(ps.drop_first(), k);
        assert(j == 1 + jr);
        assert forall|i: int| 0 <= i < j implies lex_lt(#[trigger] ps[i].0, k) by {
            if i > 0 {
                assert(lex_lt(ps.drop_first()[i - 1].0, k));
            }
        }
        if j < ps.len() {
            assert(ps[j].0 == ps.drop_first()[jr].0);
        }
        if j < ps.len() && ps[j].0 == k {
            assert(insert_pair(ps, k, v) =~= ps.take(j).push((k, v)) + ps.skip(j + 1));
        } else {
            assert(insert_pair(ps, k, v) =~= ps.take(j).push((k, v)) + ps.skip(j));
        }
    } else if ps[0].0 == k {
        assert(insert_pair(ps, k, v) =~= ps.take(0).push((k, v)) + ps.skip(1));
    } else {
        assert(insert_pair(ps, k, v) =~= ps.take(0).push((k, v)) + ps.skip(0));
    }
}

/// Inserting into a sorted pair sequence keeps it sorted, and every
/// resulting pair is either the inserted one or one already present.
pub proof fn lemma_insert_pair_sorted(ps: Seq<(Seq<u8>, ValueModel)>, k: Seq<u8>, v: ValueModel)
    requires
        keys_sorted(ps),
    ensures
        keys_sorted(insert_pair(ps, k, v)),
        forall|m: int|
            0 <= m < insert_pair(ps, k, v).len() ==> (#[trigger] insert_pair(ps, k, v)[m] == (k, v)
                || exists|i: int| 0 <= i < ps.len() && insert_pair(ps, k, v)[m] == ps[i]),
{
    lemma_insert_pair_shape(ps, k, v);
    let j = insert_pos(ps, k);
    let r = insert_pair(ps, k, v);
    let replaced = j < ps.len() && ps[j].0 == k;
    let tail_start = if replaced {
        j + 1
    } else {
        j
    };
    // r == ps.take(j).push((k, v)) + ps.skip(tail_start)
    assert forall|m: int| 0 <= m < r.len() implies (#[trigger] r[m] == (k, v) || exists|i: int|
        0 <= i < ps.len() && r[m] == ps[i]) by {
        if m < j {
            assert(r[m] == ps[m]);
        } else if m == j {
            assert(r[m] == (k, v));
        } else {
            assert(r[m] == ps[m - j - 1 + tail_start]);
        }
    }
    assert forall|m1: int, m2: int| 0 <= m1 < m2 < r.len() implies lex_lt(
        #[trigger] r[m1].0,
        #[trigger] r[m2].0,
    ) by {
        let key_of = |m: int| -> Seq<u8>
            {
                if m < j {
                    ps[m].0
                } else if m == j {
                    k
                } else {
                    ps[m - j - 1 + tail_start].0
                }
            };
        assert(r[m1].0 == key_of(m1));
        assert(r[m2].0 == key_of(m2));
        // keys strictly below position j are below k; keys at or after the
        // tail are at or above position tail_start in ps and are above k.
        if m2 > j {
            let i2 = m2 - j - 1 + tail_start;
            assert(tail_start <= i2 < ps.len());
            if j < ps.len() {
                if replaced {
                    if i2 > j {
                        assert(lex_lt(ps[j].0, ps[i2].0));
                    }
                    assert(lex_lt(k, ps[i2].0) || (i2 == j)) by {
                        if i2 > j {
                            assert(ps[j].0 == k);
                        }
                    }
                    assert(i2 >= tail_start == j + 1);
                    assert(lex_lt(k, ps[i2].0));
                } else {
                    // ps[j].0 is not below k and differs from k, so k is below it
                    lemma_lex_total(ps[j].0, k);
                    assert(lex_lt(k, ps[j].0));
                    if i2 > j {
                        assert(lex_lt(ps[j].0, ps[i2].0));
                        lemma_lex_trans(k, ps[j].0, ps[i2].0);
                    }
                    assert(lex_lt(k, ps[i2].0));
                }
            }
        }
        if m1 < j && m2 == j {
            assert(lex_lt(ps[m1].0, k));
        }
        if m1 < j && m2 > j {
            let i2 = m2 - j - 1 + tail_start;
            assert(lex_lt(ps[m1].0, k));
            assert(lex_lt(k, ps[i2].0));
            lemma_lex_trans(ps[m1].0, k, ps[i2].0);
        }
        if m1 == j && m2 > j {
            let i2 = m2 - j - 1 + tail_start;
            assert(lex_lt(k, ps[i2].0));
        }
        if m1 < j && m2 < j {
            assert(lex_lt(ps[m1].0, ps[m2].0));
        }
        if m1 > j {
            let i1 = m1 - j - 1 + tail_start;
            let i2 = m2 - j - 1 + tail_start;
            assert(lex_lt(ps[i1].0, ps[i2].0));
        }
    }
}

/// Inserting a pair whose key is above every present key appends it.
pub proof fn lemma_insert_pair_append(ps: Seq<(Seq<u8>, ValueModel)>, k: Seq<u8>, v: ValueModel)
    requires
        forall|i: int| 0 <= i < ps.len() ==> lex_lt(#[trigger] ps[i].0, k),
    ensures
        insert_pair(ps, k, v) == ps.push((k, v)),
    decreases ps.len(),
{
    if ps.len() == 0 {
        assert(insert_pair(ps, k, v) =~= ps.push((k, v)));
    } else {
        assert(forall|i: int|
            0 <= i < ps.drop_first().len() ==> lex_lt(#[trigger] ps.drop_first()[i].0, k));
        lemma_insert_pair_append(ps.drop_first(), k, v);
        assert(insert_pair(ps, k, v) =~= ps.push((k, v)));
    }
}

/// The canonical form of a value: integers are normalized (no negative
/// zero) and every dictionary is re-sorted by raw key bytes, a later
/// binding of a key replacing an earlier one.  Encoding always emits the
/// canonical form.
pub open spec fn canon(v: ValueModel) -> ValueModel
    decreases v,
{
    match v {
        ValueModel::Int { negative, magnitude } => ValueModel::Int {
            negative: negative && magnitude >= 1,
            magnitude,
        },
        ValueModel::Bytes(b) => ValueModel::Bytes(b),
        ValueModel::List(items) => ValueModel::List(canon_items_upto(items, items.len() as int)),
        ValueModel::Dict(ps) => ValueModel::Dict(canon_pairs_upto(ps, ps.len() as int)),
    }
}

/// Canonical forms of the first `n` elements.
pub open spec fn canon_items_upto(s: Seq<ValueModel>, n: int) -> Seq<ValueModel>
    decreases s, n,
{
    if n <= 0 || n > s.len() {
        Seq::empty()
    } else {
        canon_items_upto(s, n - 1).push(canon(s[n - 1]))
    }
}

/// The sorted merge of the first `n` pairs, values canonicalized, later
/// equal keys replacing earlier ones.
pub open spec fn canon_pairs_upto(
    s: Seq<(Seq<u8>, ValueModel)>,
    n: int,
) -> Seq<(Seq<u8>, ValueModel)>
    decreases s, n,
{
    if n <= 0 || n > s.len() {
        Seq::empty()
    } else {
        insert_pair(canon_pairs_upto(s, n - 1), s[n - 1].0, canon(s[n - 1].1))
    }
}

/// Canonicalized element sequences are pointwise canonical.
pub proof fn lemma_canon_items(s: Seq<ValueModel>, n: int)
    requires
        0 <= n <= s.len(),
    ensures
        canon_items_upto(s, n).len() == n,
        forall|i: int| 0 <= i < n ==> #[trigger] canon_items_upto(s, n)[i] == canon(s[i]),
    decreases n,
{
    if n > 0 {
        lemma_canon_items(s, n - 1);
    }
}

/// The sorted merge of dictionary pairs is key-sorted, and each of its
/// pairs is one of the given keys with its canonicalized value.
pub proof fn lemma_canon_pairs(ps: Seq<(Seq<u8>, ValueModel)>, n: int)
    requires
        0 <= n <= ps.len(),
    ensures
        keys_sorted(canon_pairs_upto(ps, n)),
        forall|m: int|
            0 <= m < canon_pairs_upto(ps, n).len() ==> exists|i: int|
                0 <= i < n && #[trigger] canon_pairs_upto(ps, n)[m] == (ps[i].0, canon(ps[i].1)),
    decreases n,
{
    if n > 0 {
        lemma_canon_pairs(ps, n - 1);
        let prev = canon_pairs_upto(ps, n - 1);
        let k = ps[n - 1].0;
        let v = canon(ps[n - 1].1);
        lemma_insert_pair_sorted(prev, k, v);
        let cur = canon_pairs_upto(ps, n);
        assert forall|m: int| 0 <= m < cur.len() implies exists|i: int|
            0 <= i < n && #[trigger] cur[m] == (ps[i].0, canon(ps[i].1)) by {
            assert(cur[m] == (k, v) || exists|p: int| 0 <= p < prev.len() && cur[m] == prev[p]);
            if cur[m] == (k, v) {
                assert(0 <= n - 1 < n && cur[m] == (ps[n - 1].0, canon(ps[n - 1].1)));
            } else {
                let p = choose|p: int| 0 <= p < prev.len() && cur[m] == prev[p];
                let i = choose|i: int|
                    0 <= i < n - 1 && #[trigger] prev[p] == (ps[i].0, canon(ps[i].1));
                assert(0 <= i < n && cur[m] == (ps[i].0, canon(ps[i].1)));
            }
        }
    }
}

/// The canonical form of any value is well formed, and canonicalizing
/// keeps lengths bounded.
pub proof fn lemma_canon_wf(v: ValueModel)
    ensures
        wf(canon(v)),
        bounded(v) ==> bounded(canon(v)),
    decreases v,
{
    match v {
        ValueModel::Int { .. } => {}
        ValueModel::Bytes(_) => {}
        ValueModel::List(items) => {
            let c = canon_items_upto(items, items.len() as int);
            lemma_canon_items(items, items.len() as int);
            assert forall|i: int| 0 <= i < c.len() implies wf(#[trigger] c[i]) && (bounded(v)
                ==> bounded(c[i])) by {
                lemma_canon_wf(items[i]);
            }
        }
        ValueModel::Dict(ps) => {
            let c = canon_pairs_upto(ps, ps.len() as int);
            lemma_canon_pairs(ps, ps.len() as int);
            assert forall|m: int| 0 <= m < c.len() implies wf((#[trigger] c[m]).1) && (bounded(v)
                ==> c[m].0.len() <= u64::MAX && bounded(c[m].1)) by {
                let i = choose|i: int|
                    0 <= i < ps.len() && #[trigger] c[m] == (ps[i].0, canon(ps[i].1));
                lemma_canon_wf(ps[i].1);
            }
        }
    }
}

/// The sorted merge of pairs that are already sorted, with values already
/// canonical, is those pairs unchanged.
proof fn lemma_canon_pairs_sorted_id(ps: Seq<(Seq<u8>, ValueModel)>, n: int)
    requires
        0 <= n <= ps.len(),
        keys_sorted(ps),
        forall|i: int| 0 <= i < ps.len() ==> wf((#[trigger] ps[i]).1),
    ensures
        canon_pairs_upto(ps, n) == ps.take(n),
    decreases ps, n,
{
    if n == 0 {
        assert(canon_pairs_upto(ps, n) =~= ps.take(0));
    } else {
        lemma_canon_pairs_sorted_id(ps, n - 1);
        lemma_wf_canon_id(ps[n - 1].1);
        assert forall|i: int| 0 <= i < ps.take(n - 1).len() implies lex_lt(
            #[trigger] ps.take(n - 1)[i].0,
            ps[n - 1].0,
        ) by {
            assert(ps.take(n - 1)[i] == ps[i]);
        }
        lemma_insert_pair_append(ps.take(n - 1), ps[n - 1].0, canon(ps[n - 1].1));
        assert(ps.take(n - 1).push((ps[n - 1].0, ps[n - 1].1)) =~= ps.take(n));
        assert((ps[n - 1].0, canon(ps[n - 1].1)) == (ps[n - 1].0, ps[n - 1].1));
    }
}

/// A well-formed value is already canonical.
pub proof fn lemma_wf_canon_id(v: ValueModel)
    requires
        wf(v),
    ensures
        canon(v) == v,
    decreases v,
{
    match v {
        ValueModel::Int { .. } => {}
        ValueModel::Bytes(_) => {}
        ValueModel::List(items) => {
            let c = canon_items_upto(items, items.len() as int);
            lemma_canon_items(items, items.len() as int);
            assert forall|i: int| 0 <= i < c.len() implies #[trigger] c[i] == items[i] by {
                lemma_wf_canon_id(items[i]);
            }
            assert(c =~= items);
        }
        ValueModel::Dict(ps) => {
            lemma_canon_pairs_sorted_id(ps, ps.len() as int);
            assert(ps.take(ps.len() as int) =~= ps);
        }
    }
}

/// The model of every value built at run time has bounded lengths.
pub proof fn lemma_vm_bounded(x: Value)
    ensures
        bounded(x.vm()),
    decreases x,
{
    match x {
        Value::Int { .. } => {}
        Value::Bytes(b) => {
            assert(b.len() == b@.len());
        }
        Value::List(items) => {
            let c = vm_items_upto(items@, items@.len() as int);
            lemma_vm_items(items@, items@.len() as int);
            assert forall|i: int| 0 <= i < c.len() implies bounded(#[trigger] c[i]) by {
                lemma_vm_bounded(items@[i]);
            }
        }
        Value::Dict(pairs) => {
            let c = vm_pairs_upto(pairs@, pairs@.len() as int);
            lemma_vm_pairs(pairs@, pairs@.len() as int);
            assert forall|m: int| 0 <= m < c.len() implies (#[trigger] c[m]).0.len() <= u64::MAX
                && bounded(c[m].1) by {
                lemma_vm_bounded(pairs@[m].1);
                assert(pairs@[m].0.len() == pairs@[m].0@.len());
            }
        }
    }
}

/// Inserts a key/value pair into a pair list kept sorted by raw key
/// bytes, replacing the pair of an equal key.  Together with
/// `Value::Dict`, this is how callers build dictionaries whose encoding
/// is canonical.
pub fn dict_insert(pairs: &mut Vec<(Vec<u8>, Value)>, key: Vec<u8>, value: Value)
    ensures
        vm_pairs(final(pairs)@) == insert_pair(vm_pairs(old(pairs)@), key@, value@),
{
    let ghost ops = vm_pairs(old(pairs)@);
    proof {
        lemma_vm_pairs(old(pairs)@, old(pairs)@.len() as int);
        lemma_insert_pair_shape(ops, key@, value@);
    }
    let mut i: usize = 0;
    loop
        invariant
            pairs == old(pairs),
            0 <= i <= pairs@.len(),
            ops == vm_pairs(old(pairs)@),
            ops.len() == pairs@.len(),
            forall|m: int| 0 <= m < pairs@.len() ==> #[trigger] ops[m] == (
                pairs@[m].0@,
                pairs@[m].1.vm(),
            ),
            forall|j: int| 0 <= j < i ==> lex_lt(#[trigger] ops[j].0, key@),
        ensures
            pairs == old(pairs),
            0 <= i <= pairs@.len(),
            forall|j: int| 0 <= j < i ==> lex_lt(#[trigger] ops[j].0, key@),
            i < pairs@.len() ==> !lex_lt(ops[i as int].0, key@),
            i as int == insert_pos(ops, key@),
        decreases pairs@.len() - i,
    {
        if i >= pairs.len() {
            proof {
                lemma_insert_pos_is(ops, key@, i as int);
            }
            break ;
        }
        let o = lex_compare(&pairs[i].0, &key);
        if !matches!(o, KeyOrder::Less) {
            proof {
                assert(ops[i as int].0 == pairs@[i as int].0@);
                lemma_insert_pos_is(ops, key@, i as int);
            }
            break ;
        }
        proof {
            assert(ops[i as int].0 == pairs@[i as int].0@);
        }
        i = i + 1;
    }
    let ghost j = insert_pos(ops, key@);
    if i < pairs.len() {
        let o = lex_compare(&pairs[i].0, &key);
        if matches!(o, KeyOrder::Equal) {
            proof {
                assert(ops[i as int].0 == pairs@[i as int].0@);
            }
            pairs.remove(i);
            pairs.insert(i, (key, value));
            proof {
                lemma_vm_pairs(pairs@, pairs@.len() as int);
                assert(vm_pairs(pairs@) =~= ops.take(j).push((key@, value@)) + ops.skip(j + 1))
                    by {
                    assert forall|m: int| 0 <= m < pairs@.len() implies #[trigger] vm_pairs(
                        pairs@,
                    )[m] == (ops.take(j).push((key@, value@)) + ops.skip(j + 1))[m] by {
                        if m < j {
                            assert(pairs@[m] == old(pairs)@[m]);
                        } else if m > j {
                            assert(pairs@[m] == old(pairs)@[m]);
                        }
                    }
                }
            }
            return ;
        }
    }
    proof {
        if i < pairs@.len() {
            assert(ops[i as int].0 == pairs@[i as int].0@);
            lemma_lex_total(ops[i as int].0, key@);
        }
    }
    pairs.insert(i, (key, value));
    proof {
        lemma_vm_pairs(pairs@, pairs@.len() as int);
        assert(vm_pairs(pairs@) =~= ops.take(j).push((key@, value@)) + ops.skip(j)) by {
            assert forall|m: int| 0 <= m < pairs@.len() implies #[trigger] vm_pairs(pairs@)[m] == (
            ops.take(j).push((key@, value@)) + ops.skip(j))[m] by {
                if m < j {
                    assert(pairs@[m] == old(pairs)@[m]);
                } else if m > j {
                    assert(pairs@[m] == old(pairs)@[m - 1]);
                }
            }
        }
    }
}

/// A position with only smaller keys before it and no smaller key at it
/// is exactly the insertion position.
pub proof fn lemma_insert_pos_is(ps: Seq<(Seq<u8>, ValueModel)>, k: Seq<u8>, i: int)
    requires
        0 <= i <= ps.len(),
        forall|j: int| 0 <= j < i ==> lex_lt(#[trigger] ps[j].0, k),
        i < ps.len() ==> !lex_lt(ps[i].0, k),
    ensures
        insert_pos(ps, k) == i,
    decreases ps.len(),
{
    if ps.len() > 0 {
        if i == 0 {
        } else {
            assert(lex_lt(ps[0].0, k));
            assert forall|j: int| 0 <= j < i - 1 implies lex_lt(
                #[trigger] ps.drop_first()[j].0,
                k,
            ) by {
                assert(ps.drop_first()[j] == ps[j + 1]);
            }
            if i - 1 < ps.drop_first().len() {
                assert(ps.drop_first()[i - 1] == ps[i]);
            }
            lemma_insert_pos_is(ps.drop_first(), k, i - 1);
        }
    }
}

/// Appending a value to a sequence appends its model.
pub proof fn lemma_vm_items_push(s: Seq<Value>, x: Value)
    ensures
        vm_items(s.push(x)) == vm_items(s).push(x.vm()),
{
    let t = s.push(x);
    lemma_vm_items(s, s.len() as int);
    lemma_vm_items(t, t.len() as int);
    assert(vm_items(t) =~= vm_items(s).push(x.vm())) by {
        assert forall|i: int| 0 <= i < t.len() implies #[trigger] vm_items(t)[i] == vm_items(
            s,
        ).push(x.vm())[i] by {
            if i < s.len() {
                assert(t[i] == s[i]);
            } else {
                assert(t[i] == x);
            }
        }
    }
}

/// Appending a pair to a sequence appends its model.
pub proof fn lemma_vm_pairs_push(s: Seq<(Vec<u8>, Value)>, k: Vec<u8>, x: Value)
    ensures
        vm_pairs(s.push((k, x))) == vm_pairs(s).push((k@, x.vm())),
{
    let t = s.push((k, x));
    lemma_vm_pairs(s, s.len() as int);
    lemma_vm_pairs(t, t.len() as int);
    assert(vm_pairs(t) =~= vm_pairs(s).push((k@, x.vm()))) by {
        assert forall|i: int| 0 <= i < t.len() implies #[trigger] vm_pairs(t)[i] == vm_pairs(
            s,
        ).push((k@, x.vm()))[i] by {
            if i < s.len() {
                assert(t[i] == s[i]);
            } else {
                assert(t[i] == (k, x));
            }
        }
    }
}

} // verus!
