use vstd::prelude::*;

use crate::digits::{
    digit_run_len, digits_val, is_digit, lemma_digit_run_len_is, lemma_digits_val_prefix_le,
};
use crate::error::Error;
use crate::value::{
    lemma_vm_items_push, lemma_vm_pairs_push, vm_items, vm_pairs, Value, ValueModel, TOK_COLON,
    TOK_DICT, TOK_END, TOK_INT, TOK_LIST, TOK_MINUS,
};

verus! {

/// What parsing one syntactic unit from a byte sequence yields: the
/// parsed item together with the bytes that follow it, or the error the
/// decoder reports for that input.
#[verifier::ext_equal]
pub enum Dec<T> {
    Found(T, Seq<u8>),
    Fail(Error),
}

/// Reads a run of decimal digits as a 64-bit number: at least one digit
/// must be present, and a value beyond 64 bits is a syntax error.
pub open spec fn dec_digits_run(s: Seq<u8>) -> Dec<u64> {
    if s.len() == 0 {
        Dec::Fail(Error::Eof)
    } else if !is_digit(s[0]) {
        Dec::Fail(Error::ExpectedInteger)
    } else {
        let k = digit_run_len(s);
        if digits_val(s.take(k)) > u64::MAX {
            Dec::Fail(Error::Syntax)
        } else {
            Dec::Found(digits_val(s.take(k)) as u64, s.skip(k))
        }
    }
}

/// Reads a byte string: a decimal length, `:`, then exactly that many
/// bytes.  A missing separator is `ExpectedByteString`; a length that
/// overruns the input is `Eof`.
pub open spec fn dec_bytestring(s: Seq<u8>) -> Dec<Seq<u8>> {
    match dec_digits_run(s) {
        Dec::Found(n, r) => {
            if r.len() == 0 {
                Dec::Fail(Error::Eof)
            } else if r[0] != TOK_COLON {
                Dec::Fail(Error::ExpectedByteString)
            } else if r.len() - 1 < n {
                Dec::Fail(Error::Eof)
            } else {
                Dec::Found(r.subrange(1, n as int + 1), r.skip(n as int + 1))
            }
        },
        Dec::Fail(e) => Dec::Fail(e),
    }
}

/// Reads an integer token `i...e`, starting at its `i`.  An optional `-`
/// precedes the digits; a missing terminator is `ExpectedIntegerEnd`.
/// A negative zero is normalized to zero.
pub open spec fn dec_int(s: Seq<u8>) -> Dec<ValueModel> {
    let t = s.skip(1);
    let neg = t.len() > 0 && t[0] == TOK_MINUS;
    let u = if neg {
        t.skip(1)
    } else {
        t
    };
    match dec_digits_run(u) {
        Dec::Found(n, r) => {
            if r.len() == 0 {
                Dec::Fail(Error::Eof)
            } else if r[0] != TOK_END {
                Dec::Fail(Error::ExpectedIntegerEnd)
            } else {
                Dec::Found(ValueModel::Int { negative: neg && n >= 1, magnitude: n }, r.skip(1))
            }
        },
        Dec::Fail(e) => Dec::Fail(e),
    }
}

/// Reads one bencoding value, dispatching on a one-byte lookahead:
/// a digit opens a byte string, `i` an integer, `l` a list, `d` a
/// dictionary; anything else is a syntax error.
pub open spec fn dec_value(s: Seq<u8>) -> Dec<ValueModel>
    decreases s.len(), 0int,
{
    if s.len() == 0 {
        Dec::Fail(Error::Eof)
    } else if is_digit(s[0]) {
        match dec_bytestring(s) {
            Dec::Found(b, r) => Dec::Found(ValueModel::Bytes(b), r),
            Dec::Fail(e) => Dec::Fail(e),
        }
    } else if s[0] == TOK_INT {
        dec_int(s)
    } else if s[0] == TOK_LIST {
        match dec_items(s.skip(1)) {
            Dec::Found(items, r) => Dec::Found(ValueModel::List(items), r),
            Dec::Fail(e) => Dec::Fail(e),
        }
    } else if s[0] == TOK_DICT {
        match dec_pairs(s.skip(1)) {
            Dec::Found(ps, r) => Dec::Found(ValueModel::Dict(ps), r),
            Dec::Fail(e) => Dec::Fail(e),
        }
    } else {
        Dec::Fail(Error::Syntax)
    }
}

/// Reads list elements until the closing `e`, which is consumed.  The
/// guard on the recursive call only rules out a parse that consumed
/// nothing, which no value parse can do.
pub open spec fn dec_items(s: Seq<u8>) -> Dec<Seq<ValueModel>>
    decreases s.len(), 1int,
{
    if s.len() == 0 {
        Dec::Fail(Error::Eof)
    } else if s[0] == TOK_END {
        Dec::Found(Seq::empty(), s.skip(1))
    } else {
        match dec_value(s) {
            Dec::Found(v, r) => {
                if r.len() < s.len() {
                    match dec_items(r) {
                        Dec::Found(items, r2) => Dec::Found(seq![v] + items, r2),
                        Dec::Fail(e) => Dec::Fail(e),
                    }
                } else {
                    Dec::Fail(Error::Syntax)
                }
            },
            Dec::Fail(e) => Dec::Fail(e),
        }
    }
}

/// Reads dictionary pairs until the closing `e`, which is consumed.
/// Keys must be byte strings; pairs are kept in wire order, so duplicate
/// and unsorted keys are accepted here (a later lookup gives the last
/// binding of a key, and re-encoding sorts).
pub open spec fn dec_pairs(s: Seq<u8>) -> Dec<Seq<(Seq<u8>, ValueModel)>>
    decreases s.len(), 1int,
{
    if s.len() == 0 {
        Dec::Fail(Error::Eof)
    } else if s[0] == TOK_END {
        Dec::Found(Seq::empty(), s.skip(1))
    } else if !is_digit(s[0]) {
        Dec::Fail(Error::ExpectedString)
    } else {
        match dec_bytestring(s) {
            Dec::Found(k, r) => {
                if r.len() < s.len() {
                    match dec_value(r) {
                        Dec::Found(v, r2) => {
                            if r2.len() < s.len() {
                                match dec_pairs(r2) {
                                    Dec::Found(ps, r3) => Dec::Found(seq![(k, v)] + ps, r3),
                                    Dec::Fail(e) => Dec::Fail(e),
                                }
                            } else {
                                Dec::Fail(Error::Syntax)
                            }
                        },
                        Dec::Fail(e) => Dec::Fail(e),
                    }
                } else {
                    Dec::Fail(Error::Syntax)
                }
            },
            Dec::Fail(e) => Dec::Fail(e),
        }
    }
}

/// What decoding a whole buffer yields: the single value it holds, or
/// the decode error, or `TrailingCharacters` when bytes remain after a
/// complete value.
pub open spec fn spec_from_bytes(s: Seq<u8>) -> Result<ValueModel, Error> {
    match dec_value(s) {
        Dec::Found(v, r) => if r.len() == 0 {
            Ok(v)
        } else {
            Err(Error::TrailingCharacters)
        },
        Dec::Fail(e) => Err(e),
    }
}

/// The model of a decode result.
pub open spec fn result_model(r: Result<Value, Error>) -> Result<ValueModel, Error> {
    match r {
        Ok(v) => Ok(v@),
        Err(e) => Err(e),
    }
}

/// Splices a parsed prefix onto the outcome of parsing the remaining
/// elements.
spec fn items_cont(prefix: Seq<ValueModel>, d: Dec<Seq<ValueModel>>) -> Dec<
    Seq<ValueModel>,
> {
    match d {
        Dec::Found(items, r) => Dec::Found(prefix + items, r),
        Dec::Fail(e) => Dec::Fail(e),
    }
}

/// Splices parsed leading pairs onto the outcome of parsing the
/// remaining pairs.
spec fn pairs_cont(
    prefix: Seq<(Seq<u8>, ValueModel)>,
    d: Dec<Seq<(Seq<u8>, ValueModel)>>,
) -> Dec<Seq<(Seq<u8>, ValueModel)>> {
    match d {
        Dec::Found(ps, r) => Dec::Found(prefix + ps, r),
        Dec::Fail(e) => Dec::Fail(e),
    }
}

/// Reads a run of decimal digits starting at `pos` as a 64-bit number.
#[verifier::loop_isolation(false)]
pub fn parse_digits_at(input: &[u8], pos: usize) -> (r: Result<(u64, usize), Error>)
    requires
        pos <= input@.len(),
    ensures
        match r {
            Ok((n, p)) => pos < p <= input@.len() && dec_digits_run(input@.skip(pos as int))
                == Dec::Found(n, input@.skip(p as int)),
            Err(e) => dec_digits_run(input@.skip(pos as int)) == Dec::<u64>::Fail(e),
        },
{
    let ghost s = input@.skip(pos as int);
    if pos >= input.len() {
        assert(s.len() == 0);
        return Err(Error::Eof);
    }
    if !(input[pos] >= 0x30 && input[pos] <= 0x39) {
        assert(s[0] == input@[pos as int]);
        return Err(Error::ExpectedInteger);
    }
    let mut acc: u64 = 0;
    let mut p: usize = pos;
    while p < input.len() && input[p] >= 0x30 && input[p] <= 0x39
        invariant
            pos <= p <= input@.len(),
            forall|i: int| pos <= i < p ==> is_digit(#[trigger] input@[i]),
            acc == digits_val(s.take(p - pos)),
        decreases input@.len() - p,
    {
        let d: u64 = (input[p] - 0x30) as u64;
        proof {
            let t = s.take(p - pos + 1);
            assert(t.drop_last() =~= s.take(p - pos));
            assert(t.last() == input@[p as int]);
            assert(digits_val(t) == acc * 10 + d);
        }
        if acc > (u64::MAX - d) / 10 {
            proof {
                assert(acc * 10 + d > u64::MAX) by (nonlinear_arith)
                    requires
                        acc > (u64::MAX - d) / 10,
                        d <= u64::MAX,
                ;
                // the value only grows with more digits, so the whole run
                // overflows
                assert forall|i: int| 0 <= i < p - pos + 1 implies is_digit(#[trigger] s[i]) by {
                    assert(s[i] == input@[pos + i]);
                }
                crate::digits::lemma_digit_run_at_least(s, p - pos + 1);
                lemma_run_overflow(s, p - pos + 1);
            }
            return Err(Error::Syntax);
        }
        proof {
            assert(acc * 10 + d <= u64::MAX) by (nonlinear_arith)
                requires
                    acc <= (u64::MAX - d) / 10,
                    d <= u64::MAX,
            ;
        }
        acc = acc * 10 + d;
        p = p + 1;
    }
    proof {
        assert forall|i: int| 0 <= i < p - pos implies is_digit(#[trigger] s[i]) by {
            assert(s[i] == input@[pos + i]);
        }
        if p < input@.len() {
            assert(s[p - pos] == input@[p as int]);
        }
        lemma_digit_run_len_is(s, p - pos);
        assert(p > pos) by {
            assert(is_digit(s[0]));
        }
        assert(dec_digits_run(s) == Dec::Found(acc, s.skip(p - pos)));
        assert(s.skip(p - pos) =~= input@.skip(p as int));
    }
    Ok((acc, p))
}

/// Splicing an empty prefix changes nothing.
proof fn lemma_items_cont_empty(d: Dec<Seq<ValueModel>>)
    ensures
        items_cont(Seq::empty(), d) == d,
{
    match d {
        Dec::Found(items, r) => {
            assert(Seq::<ValueModel>::empty() + items =~= items);
        },
        Dec::Fail(_) => {},
    }
}

/// Splicing element by element agrees with splicing a grown prefix.
proof fn lemma_items_cont_push(a: Seq<ValueModel>, x: ValueModel, d: Dec<Seq<ValueModel>>)
    ensures
        items_cont(a, items_cont(seq![x], d)) == items_cont(a.push(x), d),
{
    match d {
        Dec::Found(items, r) => {
            assert(a + (seq![x] + items) =~= a.push(x) + items);
        },
        Dec::Fail(_) => {},
    }
}

/// Splicing an empty pair prefix changes nothing.
proof fn lemma_pairs_cont_empty(d: Dec<Seq<(Seq<u8>, ValueModel)>>)
    ensures
        pairs_cont(Seq::empty(), d) == d,
{
    match d {
        Dec::Found(ps, r) => {
            assert(Seq::<(Seq<u8>, ValueModel)>::empty() + ps =~= ps);
        },
        Dec::Fail(_) => {},
    }
}

/// Splicing pair by pair agrees with splicing a grown prefix.
proof fn lemma_pairs_cont_push(
    a: Seq<(Seq<u8>, ValueModel)>,
    x: (Seq<u8>, ValueModel),
    d: Dec<Seq<(Seq<u8>, ValueModel)>>,
)
    ensures
        pairs_cont(a, pairs_cont(seq![x], d)) == pairs_cont(a.push(x), d),
{
    match d {
        Dec::Found(ps, r) => {
            assert(a + (seq![x] + ps) =~= a.push(x) + ps);
        },
        Dec::Fail(_) => {},
    }
}

/// Reads a byte string starting at `pos`.
pub fn parse_bytestring_at(input: &[u8], pos: usize) -> (r: Result<(Vec<u8>, usize), Error>)
    requires
        pos <= input@.len(),
    ensures
        match r {
            Ok((b, p)) => pos < p <= input@.len() && dec_bytestring(input@.skip(pos as int))
                == Dec::Found(b@, input@.skip(p as int)),
            Err(e) => dec_bytestring(input@.skip(pos as int)) == Dec::<Seq<u8>>::Fail(e),
        },
{
    let ghost s = input@.skip(pos as int);
    let (n, p1) = match parse_digits_at(input, pos) {
        Ok(x) => x,
        Err(e) => {
            return Err(e);
        },
    };
    let ghost rr = input@.skip(p1 as int);
    if p1 >= input.len() {
        assert(rr.len() == 0);
        return Err(Error::Eof);
    }
    assert(rr[0] == input@[p1 as int]);
    if input[p1] != TOK_COLON {
        return Err(Error::ExpectedByteString);
    }
    let remaining: usize = input.len() - p1 - 1;
    if n > remaining as u64 {
        return Err(Error::Eof);
    }
    let n_us: usize = n as usize;
    let content = vstd::slice::slice_to_vec(
        vstd::slice::slice_subrange(input, p1 + 1, p1 + 1 + n_us),
    );
    proof {
        assert(rr.subrange(1, n as int + 1) =~= input@.subrange(
            p1 + 1,
            p1 + 1 + n as int,
        ));
        assert(rr.skip(n as int + 1) =~= input@.skip(p1 + 1 + n as int));
    }
    Ok((content, p1 + 1 + n_us))
}

/// Reads an integer token starting at its `i` byte.
pub fn parse_int_at(input: &[u8], pos: usize) -> (r: Result<(Value, usize), Error>)
    requires
        pos < input@.len(),
        input@[pos as int] == TOK_INT,
    ensures
        match r {
            Ok((v, p)) => pos < p <= input@.len() && dec_int(input@.skip(pos as int)) == Dec::Found(
                v@,
                input@.skip(p as int),
            ),
            Err(e) => dec_int(input@.skip(pos as int)) == Dec::<ValueModel>::Fail(e),
        },
{
    let ghost s = input@.skip(pos as int);
    let ghost t = s.skip(1);
    proof {
        assert(input.len() == input@.len());
        assert(t =~= input@.skip(pos + 1));
    }
    let mut q: usize = pos + 1;
    let negative = q < input.len() && input[q] == TOK_MINUS;
    proof {
        if q < input@.len() {
            assert(t[0] == input@[q as int]);
        }
        assert(negative == (t.len() > 0 && t[0] == TOK_MINUS));
    }
    if negative {
        q = q + 1;
    }
    let ghost u = input@.skip(q as int);
    proof {
        if negative {
            assert(u =~= t.skip(1));
        } else {
            assert(u =~= t);
        }
    }
    let (mag, p2) = match parse_digits_at(input, q) {
        Ok(x) => x,
        Err(e) => {
            return Err(e);
        },
    };
    let ghost rr = input@.skip(p2 as int);
    if p2 >= input.len() {
        assert(rr.len() == 0);
        return Err(Error::Eof);
    }
    assert(rr[0] == input@[p2 as int]);
    if input[p2] != TOK_END {
        return Err(Error::ExpectedIntegerEnd);
    }
    let v = Value::Int { negative: negative && mag >= 1, magnitude: mag };
    proof {
        assert(rr.skip(1) =~= input@.skip(p2 + 1));
    }
    Ok((v, p2 + 1))
}

/// Reads one bencoding value starting at `pos`, returning it with the
/// position just past it.  The relation to the specification parser is
/// exact: the same value on the same inputs, the same error otherwise.
#[verifier::loop_isolation(false)]
pub fn parse_value_at(input: &[u8], pos: usize) -> (r: Result<(Value, usize), Error>)
    requires
        pos <= input@.len(),
    ensures
        match r {
            Ok((v, p)) => pos < p <= input@.len() && dec_value(input@.skip(pos as int))
                == Dec::Found(v@, input@.skip(p as int)),
            Err(e) => dec_value(input@.skip(pos as int)) == Dec::<ValueModel>::Fail(e),
        },
    decreases input@.len() - pos,
{
    let ghost s = input@.skip(pos as int);
    if pos >= input.len() {
        assert(s.len() == 0);
        return Err(Error::Eof);
    }
    let b = input[pos];
    proof {
        assert(s[0] == input@[pos as int]);
    }
    if b >= 0x30 && b <= 0x39 {
        match parse_bytestring_at(input, pos) {
            Ok((bytes, p)) => Ok((Value::Bytes(bytes), p)),
            Err(e) => Err(e),
        }
    } else if b == TOK_INT {
        parse_int_at(input, pos)
    } else if b == TOK_LIST {
        let mut items: Vec<Value> = Vec::new();
        let mut p: usize = pos + 1;
        proof {
            assert(s.skip(1) =~= input@.skip(pos + 1));
            lemma_items_cont_empty(dec_items(input@.skip(pos + 1)));
            assert(vm_items(items@) =~= Seq::<ValueModel>::empty());
        }
        loop
            invariant
                pos < p <= input@.len(),
                dec_items(s.skip(1)) == items_cont(
                    vm_items(items@),
                    dec_items(input@.skip(p as int)),
                ),
            decreases input@.len() - p,
        {
            let ghost cur = input@.skip(p as int);
            if p >= input.len() {
                assert(cur.len() == 0);
                return Err(Error::Eof);
            }
            proof {
                assert(cur[0] == input@[p as int]);
            }
            if input[p] == TOK_END {
                let out = Value::List(items);
                proof {
                    assert(dec_items(cur) == Dec::<Seq<ValueModel>>::Found(
                        Seq::empty(),
                        cur.skip(1),
                    ));
                    assert(vm_items(items@) + Seq::<ValueModel>::empty() =~= vm_items(items@));
                    assert(cur.skip(1) =~= input@.skip(p + 1));
                    assert(out@ == ValueModel::List(vm_items(items@)));
                }
                return Ok((out, p + 1));
            }
            match parse_value_at(input, p) {
                Ok((v, p2)) => {
                    proof {
                        assert(dec_value(cur) == Dec::<ValueModel>::Found(
                            v@,
                            input@.skip(p2 as int),
                        ));
                        assert(input@.skip(p2 as int).len() < cur.len());
                        assert(dec_items(cur) == items_cont(
                            seq![v@],
                            dec_items(input@.skip(p2 as int)),
                        ));
                        lemma_items_cont_push(
                            vm_items(items@),
                            v@,
                            dec_items(input@.skip(p2 as int)),
                        );
                        lemma_vm_items_push(items@, v);
                    }
                    items.push(v);
                    p = p2;
                },
                Err(e) => {
                    proof {
                        assert(dec_value(cur) == Dec::<ValueModel>::Fail(e));
                        assert(dec_items(cur) == Dec::<Seq<ValueModel>>::Fail(e));
                    }
                    return Err(e);
                },
            }
        }
    } else if b == TOK_DICT {
        let mut pairs: Vec<(Vec<u8>, Value)> = Vec::new();
        let mut p: usize = pos + 1;
        proof {
            assert(s.skip(1) =~= input@.skip(pos + 1));
            lemma_pairs_cont_empty(dec_pairs(input@.skip(pos + 1)));
            assert(vm_pairs(pairs@) =~= Seq::<(Seq<u8>, ValueModel)>::empty());
        }
        loop
            invariant
                pos < p <= input@.len(),
                dec_pairs(s.skip(1)) == pairs_cont(
                    vm_pairs(pairs@),
                    dec_pairs(input@.skip(p as int)),
                ),
            decreases input@.len() - p,
        {
            let ghost cur = input@.skip(p as int);
            if p >= input.len() {
                assert(cur.len() == 0);
                return Err(Error::Eof);
            }
            proof {
                assert(cur[0] == input@[p as int]);
            }
            if input[p] == TOK_END {
                let out = Value::Dict(pairs);
                proof {
                    assert(dec_pairs(cur) == Dec::<Seq<(Seq<u8>, ValueModel)>>::Found(
                        Seq::empty(),
                        cur.skip(1),
                    ));
                    assert(vm_pairs(pairs@) + Seq::<(Seq<u8>, ValueModel)>::empty() =~= vm_pairs(
                        pairs@,
                    ));
                    assert(cur.skip(1) =~= input@.skip(p + 1));
                    assert(out@ == ValueModel::Dict(vm_pairs(pairs@)));
                }
                return Ok((out, p + 1));
            }
            if !(input[p] >= 0x30 && input[p] <= 0x39) {
                proof {
                    assert(dec_pairs(cur) == Dec::<Seq<(Seq<u8>, ValueModel)>>::Fail(
                        Error::ExpectedString,
                    ));
                }
                return Err(Error::ExpectedString);
            }
            let (key, pk) = match parse_bytestring_at(input, p) {
                Ok(x) => x,
                Err(e) => {
                    proof {
                        assert(dec_bytestring(cur) == Dec::<Seq<u8>>::Fail(e));
                        assert(dec_pairs(cur) == Dec::<Seq<(Seq<u8>, ValueModel)>>::Fail(e));
                    }
                    return Err(e);
                },
            };
            proof {
                assert(dec_bytestring(cur) == Dec::<Seq<u8>>::Found(
                    key@,
                    input@.skip(pk as int),
                ));
                assert(input@.skip(pk as int).len() < cur.len());
            }
            match parse_value_at(input, pk) {
                Ok((v, p2)) => {
                    proof {
                        assert(dec_value(input@.skip(pk as int)) == Dec::<ValueModel>::Found(
                            v@,
                            input@.skip(p2 as int),
                        ));
                        assert(input@.skip(p2 as int).len() < cur.len());
                        assert(dec_pairs(cur) == pairs_cont(
                            seq![(key@, v@)],
                            dec_pairs(input@.skip(p2 as int)),
                        ));
                        lemma_pairs_cont_push(
                            vm_pairs(pairs@),
                            (key@, v@),
                            dec_pairs(input@.skip(p2 as int)),
                        );
                        lemma_vm_pairs_push(pairs@, key, v);
                    }
                    pairs.push((key, v));
                    p = p2;
                },
                Err(e) => {
                    proof {
                        assert(dec_value(input@.skip(pk as int)) == Dec::<ValueModel>::Fail(e));
                        assert(dec_pairs(cur) == Dec::<Seq<(Seq<u8>, ValueModel)>>::Fail(e));
                    }
                    return Err(e);
                },
            }
        }
    } else {
        Err(Error::Syntax)
    }
}

/// Reads an optional `-` sign and a run of digits: the sign as read,
/// with the magnitude.  A bare sign with nothing after it is `Eof`.
pub open spec fn dec_signed_run(s: Seq<u8>) -> Dec<(bool, u64)> {
    let neg = s.len() > 0 && s[0] == TOK_MINUS;
    let u = if neg {
        s.skip(1)
    } else {
        s
    };
    match dec_digits_run(u) {
        Dec::Found(n, r) => Dec::Found((neg, n), r),
        Dec::Fail(e) => Dec::Fail(e),
    }
}

/// Reads a non-negative integer token `i<digits>e`; a sign byte is
/// rejected as `ExpectedInteger`.
pub open spec fn dec_num_unsigned(s: Seq<u8>) -> Dec<u64> {
    if s.len() == 0 {
        Dec::Fail(Error::Eof)
    } else if s[0] != TOK_INT {
        Dec::Fail(Error::ExpectedInteger)
    } else {
        match dec_digits_run(s.skip(1)) {
            Dec::Found(n, r) => {
                if r.len() == 0 {
                    Dec::Fail(Error::Eof)
                } else if r[0] != TOK_END {
                    Dec::Fail(Error::ExpectedIntegerEnd)
                } else {
                    Dec::Found(n, r.skip(1))
                }
            },
            Dec::Fail(e) => Dec::Fail(e),
        }
    }
}

/// Reads an integer token `i[-]<digits>e` as a sign and a magnitude.
pub open spec fn dec_num_signed(s: Seq<u8>) -> Dec<(bool, u64)> {
    if s.len() == 0 {
        Dec::Fail(Error::Eof)
    } else if s[0] != TOK_INT {
        Dec::Fail(Error::ExpectedInteger)
    } else {
        match dec_signed_run(s.skip(1)) {
            Dec::Found(sn, r) => {
                if r.len() == 0 {
                    Dec::Fail(Error::Eof)
                } else if r[0] != TOK_END {
                    Dec::Fail(Error::ExpectedIntegerEnd)
                } else {
                    Dec::Found(sn, r.skip(1))
                }
            },
            Dec::Fail(e) => Dec::Fail(e),
        }
    }
}

/// A bencoding decoder: it borrows the input buffer and consumes bytes
/// from the front as values are parsed.
pub struct Deserializer<'de> {
    input: &'de [u8],
    pos: usize,
}

impl<'de> Deserializer<'de> {
    /// The bytes not yet consumed.
    pub closed spec fn remaining(self) -> Seq<u8> {
        self.input@.skip(self.pos as int)
    }

    /// The cursor never passes the end of the input.
    pub closed spec fn inv(self) -> bool {
        self.pos <= self.input@.len()
    }

    /// A decoder positioned at the start of `input`.
    pub fn from_bytes(input: &'de [u8]) -> (d: Self)
        ensures
            d.inv(),
            d.remaining() == input@,
    {
        let d = Deserializer { input, pos: 0 };
        proof {
            assert(d.remaining() =~= input@);
        }
        d
    }

    /// The next byte of the input, left in place.
    pub fn peek_byte(&self) -> (r: Result<u8, Error>)
        requires
            self.inv(),
        ensures
            match r {
                Ok(b) => self.remaining().len() > 0 && b == self.remaining()[0],
                Err(e) => self.remaining().len() == 0 && e == Error::Eof,
            },
    {
        if self.pos < self.input.len() {
            proof {
                assert(self.remaining()[0] == self.input@[self.pos as int]);
            }
            Ok(self.input[self.pos])
        } else {
            Err(Error::Eof)
        }
    }

    /// The next two bytes of the input, left in place.
    pub fn peek_two_bytes(&self) -> (r: Result<(u8, u8), Error>)
        requires
            self.inv(),
        ensures
            match r {
                Ok((a, b)) => self.remaining().len() >= 2 && a == self.remaining()[0] && b
                    == self.remaining()[1],
                Err(e) => self.remaining().len() < 2 && e == Error::Eof,
            },
    {
        if self.input.len() >= 2 && self.pos < self.input.len() - 1 {
            proof {
                assert(self.remaining()[0] == self.input@[self.pos as int]);
                assert(self.remaining()[1] == self.input@[self.pos + 1]);
            }
            Ok((self.input[self.pos], self.input[self.pos + 1]))
        } else {
            Err(Error::Eof)
        }
    }

    /// Consumes and returns the next byte of the input.
    pub fn next_byte(&mut self) -> (r: Result<u8, Error>)
        requires
            old(self).inv(),
        ensures
            final(self).inv(),
            match r {
                Ok(b) => old(self).remaining().len() > 0 && b == old(self).remaining()[0]
                    && final(self).remaining() == old(self).remaining().skip(1),
                Err(e) => *final(self) == *old(self) && old(self).remaining().len() == 0 && e
                    == Error::Eof,
            },
    {
        if self.pos < self.input.len() {
            let b = self.input[self.pos];
            proof {
                assert(self.remaining()[0] == self.input@[self.pos as int]);
                assert(self.input@.skip(self.pos + 1) =~= self.remaining().skip(1));
            }
            self.pos = self.pos + 1;
            Ok(b)
        } else {
            Err(Error::Eof)
        }
    }

    /// Reads a run of decimal digits as an unsigned 64-bit number.
    pub fn parse_unsigned(&mut self) -> (r: Result<u64, Error>)
        requires
            old(self).inv(),
        ensures
            final(self).inv(),
            match r {
                Ok(n) => dec_digits_run(old(self).remaining()) == Dec::Found(
                    n,
                    final(self).remaining(),
                ),
                Err(e) => *final(self) == *old(self) && dec_digits_run(old(self).remaining())
                    == Dec::<u64>::Fail(e),
            },
    {
        match parse_digits_at(self.input, self.pos) {
            Ok((n, p)) => {
                self.pos = p;
                Ok(n)
            },
            Err(e) => Err(e),
        }
    }

    /// Reads an optional `-` sign and a run of decimal digits, returning
    /// the sign as read together with the magnitude.
    pub fn parse_signed(&mut self) -> (r: Result<(bool, u64), Error>)
        requires
            old(self).inv(),
        ensures
            final(self).inv(),
            match r {
                Ok(sn) => dec_signed_run(old(self).remaining()) == Dec::Found(
                    sn,
                    final(self).remaining(),
                ),
                Err(e) => dec_signed_run(old(self).remaining()) == Dec::<(bool, u64)>::Fail(e),
            },
    {
        let ghost s = self.remaining();
        let negative = self.pos < self.input.len() && self.input[self.pos] == TOK_MINUS;
        proof {
            if self.pos < self.input@.len() {
                assert(s[0] == self.input@[self.pos as int]);
            }
        }
        let q = if negative {
            self.pos + 1
        } else {
            self.pos
        };
        proof {
            if negative {
                assert(self.input@.skip(q as int) =~= s.skip(1));
            }
        }
        match parse_digits_at(self.input, q) {
            Ok((n, p)) => {
                self.pos = p;
                Ok((negative, n))
            },
            Err(e) => Err(e),
        }
    }

    /// Reads a non-negative integer token `i<digits>e`.
    pub fn parse_bencoding_num_unsigned(&mut self) -> (r: Result<u64, Error>)
        requires
            old(self).inv(),
        ensures
            final(self).inv(),
            match r {
                Ok(n) => dec_num_unsigned(old(self).remaining()) == Dec::Found(
                    n,
                    final(self).remaining(),
                ),
                Err(e) => dec_num_unsigned(old(self).remaining()) == Dec::<u64>::Fail(e),
            },
    {
        let ghost s = self.remaining();
        if self.pos >= self.input.len() {
            return Err(Error::Eof);
        }
        proof {
            assert(s[0] == self.input@[self.pos as int]);
        }
        if self.input[self.pos] != TOK_INT {
            return Err(Error::ExpectedInteger);
        }
        proof {
            assert(self.input@.skip(self.pos + 1) =~= s.skip(1));
        }
        let (n, p) = match parse_digits_at(self.input, self.pos + 1) {
            Ok(x) => x,
            Err(e) => {
                return Err(e);
            },
        };
        let ghost rr = self.input@.skip(p as int);
        if p >= self.input.len() {
            assert(rr.len() == 0);
            return Err(Error::Eof);
        }
        proof {
            assert(rr[0] == self.input@[p as int]);
        }
        if self.input[p] != TOK_END {
            return Err(Error::ExpectedIntegerEnd);
        }
        proof {
            assert(rr.skip(1) =~= self.input@.skip(p + 1));
        }
        self.pos = p + 1;
        Ok(n)
    }

    /// Reads an integer token `i[-]<digits>e` as a sign and a magnitude.
    pub fn parse_bencoding_num_signed(&mut self) -> (r: Result<(bool, u64), Error>)
        requires
            old(self).inv(),
        ensures
            final(self).inv(),
            match r {
                Ok(sn) => dec_num_signed(old(self).remaining()) == Dec::Found(
                    sn,
                    final(self).remaining(),
                ),
                Err(e) => dec_num_signed(old(self).remaining()) == Dec::<(bool, u64)>::Fail(e),
            },
    {
        let ghost s = self.remaining();
        if self.pos >= self.input.len() {
            return Err(Error::Eof);
        }
        proof {
            assert(s[0] == self.input@[self.pos as int]);
        }
        if self.input[self.pos] != TOK_INT {
            return Err(Error::ExpectedInteger);
        }
        self.pos = self.pos + 1;
        proof {
            assert(self.remaining() =~= s.skip(1));
        }
        let sn = match self.parse_signed() {
            Ok(x) => x,
            Err(e) => {
                return Err(e);
            },
        };
        let ghost rr = self.remaining();
        match self.next_byte() {
            Ok(b) => {
                if b != TOK_END {
                    return Err(Error::ExpectedIntegerEnd);
                }
            },
            Err(e) => {
                return Err(e);
            },
        }
        Ok(sn)
    }

    /// Reads a byte string: a decimal length, `:`, then that many bytes,
    /// which are returned.
    pub fn parse_byte_string(&mut self) -> (r: Result<Vec<u8>, Error>)
        requires
            old(self).inv(),
        ensures
            final(self).inv(),
            match r {
                Ok(b) => dec_bytestring(old(self).remaining()) == Dec::Found(
                    b@,
                    final(self).remaining(),
                ),
                Err(e) => dec_bytestring(old(self).remaining()) == Dec::<Seq<u8>>::Fail(e),
            },
    {
        match parse_bytestring_at(self.input, self.pos) {
            Ok((b, p)) => {
                self.pos = p;
                Ok(b)
            },
            Err(e) => Err(e),
        }
    }

    /// Reads a byte string and decodes it as UTF-8 text; bytes that are
    /// not valid UTF-8 are rejected with `ExpectedString`.
    pub fn parse_string(&mut self) -> (r: Result<String, Error>)
        requires
            old(self).inv(),
        ensures
            final(self).inv(),
            match r {
                Ok(st) => dec_bytestring(old(self).remaining()) matches Dec::Found(b, rem)
                    && vstd::utf8::valid_utf8(b) && st@ == vstd::utf8::decode_utf8(b)
                    && final(self).remaining() == rem,
                Err(e) => (dec_bytestring(old(self).remaining()) matches Dec::Found(b, rem)
                    && !vstd::utf8::valid_utf8(b) && e == Error::ExpectedString) || dec_bytestring(
                    old(self).remaining(),
                ) == Dec::<Seq<u8>>::Fail(e),
            },
    {
        let b = match self.parse_byte_string() {
            Ok(b) => b,
            Err(e) => {
                return Err(e);
            },
        };
        match crate::text::bytes_to_string(b.as_slice()) {
            Some(st) => Ok(st),
            None => Err(Error::ExpectedString),
        }
    }

    /// Reads one bencoding value.
    pub fn parse_value(&mut self) -> (r: Result<Value, Error>)
        requires
            old(self).inv(),
        ensures
            final(self).inv(),
            match r {
                Ok(v) => dec_value(old(self).remaining()) == Dec::Found(
                    v@,
                    final(self).remaining(),
                ),
                Err(e) => dec_value(old(self).remaining()) == Dec::<ValueModel>::Fail(e),
            },
    {
        match parse_value_at(self.input, self.pos) {
            Ok((v, p)) => {
                self.pos = p;
                Ok(v)
            },
            Err(e) => Err(e),
        }
    }
}

/// Decodes a whole buffer into a single value.  The buffer must hold
/// exactly one value: bytes left over after it are rejected with
/// `TrailingCharacters`, and every malformed input is rejected with the
/// error the specification parser gives it.
pub fn from_bytes(input: &[u8]) -> (r: Result<Value, Error>)
    ensures
        result_model(r) == spec_from_bytes(input@),
{
    proof {
        assert(input@.skip(0) =~= input@);
    }
    match parse_value_at(input, 0) {
        Ok((v, p)) => {
            if p == input.len() {
                assert(input@.skip(p as int).len() == 0);
                Ok(v)
            } else {
                assert(input@.skip(p as int).len() != 0);
                Err(Error::TrailingCharacters)
            }
        },
        Err(e) => Err(e),
    }
}

/// If some prefix of the digit run already exceeds 64 bits, the whole
/// run does.
proof fn lemma_run_overflow(s: Seq<u8>, j: int)
    requires
        0 <= j <= s.len(),
        forall|i: int| 0 <= i < j ==> is_digit(#[trigger] s[i]),
        j <= digit_run_len(s),
        digits_val(s.take(j)) > u64::MAX,
    ensures
        digits_val(s.take(digit_run_len(s))) > u64::MAX,
{
    let k = digit_run_len(s);
    crate::digits::lemma_digit_run_basic(s);
    let t = s.take(k);
    assert(forall|i: int| 0 <= i < t.len() ==> is_digit(#[trigger] t[i]));
    lemma_digits_val_prefix_le(t, j);
    assert(t.take(j) =~= s.take(j));
}

} // verus!
