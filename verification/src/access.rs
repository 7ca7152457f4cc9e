use vstd::prelude::*;

use crate::error::Error;
use crate::order::{lex_compare, KeyOrder};
use crate::text::bytes_to_string;
use crate::value::{lemma_vm_pairs, vm_items, vm_pairs, Value, ValueModel};
use vstd::string::StrSliceExecFns;

verus! {

/// Whether the value is an integer.
pub open spec fn is_int(v: ValueModel) -> bool {
    v matches ValueModel::Int { .. }
}

/// The mathematical value of an integer value (zero on other shapes).
pub open spec fn int_value(v: ValueModel) -> int {
    match v {
        ValueModel::Int { negative, magnitude } => if negative {
            -(magnitude as int)
        } else {
            magnitude as int
        },
        _ => 0,
    }
}

/// The value bound to a key in a pair list, the last binding winning,
/// as the lenient decoder's duplicate-key rule demands.
pub open spec fn lookup_model(ps: Seq<(Seq<u8>, ValueModel)>, k: Seq<u8>) -> Option<ValueModel>
    decreases ps.len(),
{
    if ps.len() == 0 {
        None
    } else if ps.last().0 == k {
        Some(ps.last().1)
    } else {
        lookup_model(ps.drop_last(), k)
    }
}

/// Finds the value bound to `key` among dictionary pairs; with
/// duplicate keys the last binding wins.
pub fn dict_get<'x>(pairs: &'x Vec<(Vec<u8>, Value)>, key: &[u8]) -> (r: Option<&'x Value>)
    ensures
        match r {
            Some(v) => lookup_model(vm_pairs(pairs@), key@) == Some(v@),
            None => lookup_model(vm_pairs(pairs@), key@) is None,
        },
{
    let ghost mp = vm_pairs(pairs@);
    proof {
        lemma_vm_pairs(pairs@, pairs@.len() as int);
        assert(mp.take(mp.len() as int) =~= mp);
    }
    let mut i: usize = pairs.len();
    while i > 0
        invariant
            0 <= i <= pairs@.len(),
            mp == vm_pairs(pairs@),
            mp.len() == pairs@.len(),
            forall|k: int| 0 <= k < mp.len() ==> #[trigger] mp[k] == (
                pairs@[k].0@,
                pairs@[k].1.vm(),
            ),
            lookup_model(mp, key@) == lookup_model(mp.take(i as int), key@),
        decreases i,
    {
        i = i - 1;
        let o = lex_compare(&pairs[i].0, key);
        proof {
            let t = mp.take(i + 1);
            assert(t.last() == mp[i as int]);
            assert(t.drop_last() =~= mp.take(i as int));
        }
        if matches!(o, KeyOrder::Equal) {
            return Some(&pairs[i].1);
        }
    }
    proof {
        assert(mp.take(0) =~= Seq::<(Seq<u8>, ValueModel)>::empty());
    }
    None
}

/// The last pair bearing a key decides the lookup.
pub proof fn lemma_lookup_model_at(ps: Seq<(Seq<u8>, ValueModel)>, k: Seq<u8>, i: int)
    requires
        0 <= i < ps.len(),
        ps[i].0 == k,
        forall|j: int| i < j < ps.len() ==> (#[trigger] ps[j]).0 != k,
    ensures
        lookup_model(ps, k) == Some(ps[i].1),
    decreases ps.len(),
{
    if i == ps.len() - 1 {
        assert(ps.last() == ps[i]);
    } else {
        assert(ps.last() == ps[ps.len() - 1]);
        let q = ps.drop_last();
        assert(q[i] == ps[i]);
        assert forall|j: int| i < j < q.len() implies (#[trigger] q[j]).0 != k by {
            assert(q[j] == ps[j]);
        }
        lemma_lookup_model_at(q, k, i);
    }
}

/// A key no pair bears is absent.
pub proof fn lemma_lookup_model_absent(ps: Seq<(Seq<u8>, ValueModel)>, k: Seq<u8>)
    requires
        forall|j: int| 0 <= j < ps.len() ==> (#[trigger] ps[j]).0 != k,
    ensures
        lookup_model(ps, k) is None,
    decreases ps.len(),
{
    if ps.len() > 0 {
        assert(ps.last() == ps[ps.len() - 1]);
        let q = ps.drop_last();
        assert forall|j: int| 0 <= j < q.len() implies (#[trigger] q[j]).0 != k by {
            assert(q[j] == ps[j]);
        }
        lemma_lookup_model_absent(q, k);
    }
}

impl Value {
    /// Reads this value as an unsigned 64-bit integer.
    pub fn as_u64(&self) -> (r: Result<u64, Error>)
        ensures
            match r {
                Ok(n) => is_int(self@) && int_value(self@) == n as int,
                Err(e) => e == Error::ExpectedInteger && !(is_int(self@) && 0 <= int_value(self@)
                    <= u64::MAX),
            },
    {
        match self {
            Value::Int { negative, magnitude } => {
                if !*negative {
                    Ok(*magnitude)
                } else if *magnitude == 0 {
                    Ok(0)
                } else {
                    Err(Error::ExpectedInteger)
                }
            },
            _ => Err(Error::ExpectedInteger),
        }
    }

    /// Reads this value as an unsigned 32-bit integer; an integer that
    /// does not fit the width is rejected.
    pub fn as_u32(&self) -> (r: Result<u32, Error>)
        ensures
            match r {
                Ok(n) => is_int(self@) && int_value(self@) == n as int,
                Err(e) => e == Error::ExpectedInteger && !(is_int(self@) && 0 <= int_value(self@)
                    <= u32::MAX),
            },
    {
        match self.as_u64() {
            Ok(n) => if n <= u32::MAX as u64 {
                Ok(n as u32)
            } else {
                Err(Error::ExpectedInteger)
            },
            Err(e) => Err(e),
        }
    }

    /// Reads this value as an unsigned 16-bit integer.
    pub fn as_u16(&self) -> (r: Result<u16, Error>)
        ensures
            match r {
                Ok(n) => is_int(self@) && int_value(self@) == n as int,
                Err(e) => e == Error::ExpectedInteger && !(is_int(self@) && 0 <= int_value(self@)
                    <= u16::MAX),
            },
    {
        match self.as_u64() {
            Ok(n) => if n <= u16::MAX as u64 {
                Ok(n as u16)
            } else {
                Err(Error::ExpectedInteger)
            },
            Err(e) => Err(e),
        }
    }

    /// Reads this value as an unsigned 8-bit integer.
    pub fn as_u8(&self) -> (r: Result<u8, Error>)
        ensures
            match r {
                Ok(n) => is_int(self@) && int_value(self@) == n as int,
                Err(e) => e == Error::ExpectedInteger && !(is_int(self@) && 0 <= int_value(self@)
                    <= u8::MAX),
            },
    {
        match self.as_u64() {
            Ok(n) => if n <= u8::MAX as u64 {
                Ok(n as u8)
            } else {
                Err(Error::ExpectedInteger)
            },
            Err(e) => Err(e),
        }
    }

    /// Reads this value as a signed 64-bit integer.
    pub fn as_i64(&self) -> (r: Result<i64, Error>)
        ensures
            match r {
                Ok(n) => is_int(self@) && int_value(self@) == n as int,
                Err(e) => e == Error::ExpectedInteger && !(is_int(self@) && i64::MIN <= int_value(
                    self@,
                ) <= i64::MAX),
            },
    {
        match self {
            Value::Int { negative, magnitude } => {
                if !*negative {
                    if *magnitude <= i64::MAX as u64 {
                        Ok(*magnitude as i64)
                    } else {
                        Err(Error::ExpectedInteger)
                    }
                } else {
                    if *magnitude <= i64::MAX as u64 {
                        Ok((-(*magnitude as i64)) as i64)
                    } else if *magnitude == i64::MAX as u64 + 1 {
                        Ok(i64::MIN)
                    } else {
                        Err(Error::ExpectedInteger)
                    }
                }
            },
            _ => Err(Error::ExpectedInteger),
        }
    }

    /// Reads this value as a signed 32-bit integer.
    pub fn as_i32(&self) -> (r: Result<i32, Error>)
        ensures
            match r {
                Ok(n) => is_int(self@) && int_value(self@) == n as int,
                Err(e) => e == Error::ExpectedInteger && !(is_int(self@) && i32::MIN <= int_value(
                    self@,
                ) <= i32::MAX),
            },
    {
        match self.as_i64() {
            Ok(n) => if i32::MIN as i64 <= n && n <= i32::MAX as i64 {
                Ok(n as i32)
            } else {
                Err(Error::ExpectedInteger)
            },
            Err(e) => Err(e),
        }
    }

    /// Reads this value as a boolean: integer zero is false, any other
    /// integer within 32 bits is true.
    pub fn as_bool(&self) -> (r: Result<bool, Error>)
        ensures
            match r {
                Ok(b) => is_int(self@) && 0 <= int_value(self@) <= u32::MAX && (b <==> int_value(
                    self@,
                ) != 0),
                Err(e) => e == Error::ExpectedInteger && !(is_int(self@) && 0 <= int_value(self@)
                    <= u32::MAX),
            },
    {
        match self.as_u32() {
            Ok(n) => Ok(n != 0),
            Err(e) => Err(e),
        }
    }

    /// Reads this value as a byte string.
    pub fn as_bytes(&self) -> (r: Result<&Vec<u8>, Error>)
        ensures
            match r {
                Ok(b) => self@ == ValueModel::Bytes(b@),
                Err(e) => e == Error::ExpectedByteString && !(self@ matches ValueModel::Bytes(_)),
            },
    {
        match self {
            Value::Bytes(b) => Ok(b),
            _ => Err(Error::ExpectedByteString),
        }
    }

    /// Reads this value as UTF-8 text.
    pub fn as_string(&self) -> (r: Result<String, Error>)
        ensures
            match r {
                Ok(s) => self@ matches ValueModel::Bytes(b) && vstd::utf8::valid_utf8(b) && s@
                    == vstd::utf8::decode_utf8(b),
                Err(e) => e == Error::ExpectedString && !(self@ matches ValueModel::Bytes(b)
                    && vstd::utf8::valid_utf8(b)),
            },
    {
        match self {
            Value::Bytes(b) => match bytes_to_string(b.as_slice()) {
                Some(s) => Ok(s),
                None => Err(Error::ExpectedString),
            },
            _ => Err(Error::ExpectedString),
        }
    }

    /// Reads this value as a single character: a byte string holding
    /// the UTF-8 encoding of exactly one character.
    pub fn as_char(&self) -> (r: Result<char, Error>)
        ensures
            match r {
                Ok(c) => self@ matches ValueModel::Bytes(b) && vstd::utf8::valid_utf8(b)
                    && vstd::utf8::decode_utf8(b) == seq![c],
                Err(e) => e == Error::ExpectedChar && !(self@ matches ValueModel::Bytes(b)
                    && vstd::utf8::valid_utf8(b) && vstd::utf8::decode_utf8(b).len() == 1),
            },
    {
        match self {
            Value::Bytes(b) => match bytes_to_string(b.as_slice()) {
                Some(s) => {
                    if s.as_str().unicode_len() == 1 {
                        let c = s.as_str().get_char(0);
                        proof {
                            assert(s@ =~= seq![s@[0]]);
                        }
                        Ok(c)
                    } else {
                        Err(Error::ExpectedChar)
                    }
                },
                None => Err(Error::ExpectedChar),
            },
            _ => Err(Error::ExpectedChar),
        }
    }

    /// Reads this value as a list of values.
    pub fn as_list(&self) -> (r: Result<&Vec<Value>, Error>)
        ensures
            match r {
                Ok(items) => self@ == ValueModel::List(vm_items(items@)),
                Err(e) => e == Error::ExpectedList && !(self@ matches ValueModel::List(_)),
            },
    {
        match self {
            Value::List(items) => Ok(items),
            _ => Err(Error::ExpectedList),
        }
    }

    /// Reads this value as a dictionary's pair list, in wire order.
    pub fn as_dict(&self) -> (r: Result<&Vec<(Vec<u8>, Value)>, Error>)
        ensures
            match r {
                Ok(pairs) => self@ == ValueModel::Dict(vm_pairs(pairs@)),
                Err(e) => e == Error::ExpectedMap && !(self@ matches ValueModel::Dict(_)),
            },
    {
        match self {
            Value::Dict(pairs) => Ok(pairs),
            _ => Err(Error::ExpectedMap),
        }
    }

    /// Reads this value as a tagged-union case, the way the decoder's
    /// one-byte lookahead rule shapes them: a bare byte string is a
    /// unit variant's name with no payload, and a one-entry dictionary
    /// maps the variant name to its payload.  A dictionary with more
    /// entries should have ended after the first; anything else is no
    /// tagged union at all.
    pub fn as_variant(&self) -> (r: Result<(&Vec<u8>, Option<&Value>), Error>)
        ensures
            match r {
                Ok((name, payload)) => match self@ {
                    ValueModel::Bytes(b) => name@ == b && payload is None,
                    ValueModel::Dict(ps) => ps.len() == 1 && name@ == ps[0].0 && (
                    payload matches Some(p) && p@ == ps[0].1),
                    _ => false,
                },
                Err(e) => match self@ {
                    ValueModel::Dict(ps) => ps.len() != 1 && e == (if ps.len() > 1 {
                        Error::ExpectedMapEnd
                    } else {
                        Error::ExpectedEnum
                    }),
                    ValueModel::Bytes(_) => false,
                    _ => e == Error::ExpectedEnum,
                },
            },
    {
        match self {
            Value::Bytes(name) => Ok((name, None)),
            Value::Dict(pairs) => {
                if pairs.len() == 1 {
                    proof {
                        lemma_vm_pairs(pairs@, 1);
                    }
                    Ok((&pairs[0].0, Some(&pairs[0].1)))
                } else if pairs.len() > 1 {
                    proof {
                        lemma_vm_pairs(pairs@, pairs@.len() as int);
                    }
                    Err(Error::ExpectedMapEnd)
                } else {
                    proof {
                        lemma_vm_pairs(pairs@, 0);
                    }
                    Err(Error::ExpectedEnum)
                }
            },
            _ => Err(Error::ExpectedEnum),
        }
    }

    /// Finds the value bound to `key` in this dictionary; with
    /// duplicate keys the last binding wins.
    pub fn lookup(&self, key: &[u8]) -> (r: Result<Option<&Value>, Error>)
        ensures
            match r {
                Ok(o) => self@ matches ValueModel::Dict(ps) && (match o {
                    Some(v) => lookup_model(ps, key@) == Some(v@),
                    None => lookup_model(ps, key@) is None,
                }),
                Err(e) => e == Error::ExpectedMap && !(self@ matches ValueModel::Dict(_)),
            },
    {
        match self {
            Value::Dict(pairs) => Ok(dict_get(pairs, key)),
            _ => Err(Error::ExpectedMap),
        }
    }
}

} // verus!
