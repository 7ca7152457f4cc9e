use vstd::prelude::*;

verus! {

/// Strict lexicographic order on raw byte sequences, by unsigned byte
/// comparison; a proper prefix sorts before its extensions.  This is the
/// order bencoding requires of dictionary keys.
pub open spec fn lex_lt(a: Seq<u8>, b: Seq<u8>) -> bool
    decreases a.len(),
{
    if b.len() == 0 {
        false
    } else if a.len() == 0 {
        true
    } else if a[0] < b[0] {
        true
    } else if a[0] > b[0] {
        false
    } else {
        lex_lt(a.drop_first(), b.drop_first())
    }
}

/// Of two distinct byte sequences, one is strictly below the other.
pub proof fn lemma_lex_total(a: Seq<u8>, b: Seq<u8>)
    ensures
        lex_lt(a, b) || lex_lt(b, a) || a == b,
    decreases a.len(),
{
    if a.len() == 0 || b.len() == 0 {
        if a.len() == b.len() {
            assert(a =~= b);
        }
    } else if a[0] == b[0] {
        lemma_lex_total(a.drop_first(), b.drop_first());
        if a.drop_first() == b.drop_first() {
            assert(a.drop_first().len() == b.drop_first().len());
            assert(a =~= b) by {
                assert forall|i: int| 0 <= i < a.len() implies a[i] == b[i] by {
                    if i > 0 {
                        assert(a[i] == a.drop_first()[i - 1]);
                        assert(b[i] == b.drop_first()[i - 1]);
                    }
                }
            }
        }
    }
}

/// The order is irreflexive and asymmetric.
pub proof fn lemma_lex_asym(a: Seq<u8>, b: Seq<u8>)
    ensures
        lex_lt(a, b) ==> !lex_lt(b, a),
        lex_lt(a, b) ==> a != b,
    decreases a.len(),
{
    if a.len() != 0 && b.len() != 0 && a[0] == b[0] {
        lemma_lex_asym(a.drop_first(), b.drop_first());
        if lex_lt(a, b) {
            assert(a.drop_first() != b.drop_first());
            assert(a != b);
        }
    }
}

/// The order is transitive.
pub proof fn lemma_lex_trans(a: Seq<u8>, b: Seq<u8>, c: Seq<u8>)
    requires
        lex_lt(a, b),
        lex_lt(b, c),
    ensures
        lex_lt(a, c),
    decreases a.len(),
{
    if a.len() != 0 && b.len() != 0 && c.len() != 0 {
        if a[0] == b[0] && b[0] == c[0] {
            lemma_lex_trans(a.drop_first(), b.drop_first(), c.drop_first());
        }
    }
}

/// Stripping an equal prefix from both sequences does not change how they
/// compare.
pub proof fn lemma_lex_common_prefix(a: Seq<u8>, b: Seq<u8>, n: int)
    requires
        0 <= n <= a.len(),
        n <= b.len(),
        a.subrange(0, n) == b.subrange(0, n),
    ensures
        lex_lt(a, b) <==> lex_lt(a.skip(n), b.skip(n)),
    decreases n,
{
    if n > 0 {
        assert(a[0] == b[0]) by {
            assert(a.subrange(0, n)[0] == a[0]);
            assert(b.subrange(0, n)[0] == b[0]);
        }
        assert(a.drop_first().subrange(0, n - 1) =~= b.drop_first().subrange(0, n - 1)) by {
            assert forall|i: int| 0 <= i < n - 1 implies a.drop_first()[i] == b.drop_first()[i] by {
                assert(a.subrange(0, n)[i + 1] == a[i + 1]);
                assert(b.subrange(0, n)[i + 1] == b[i + 1]);
            }
        }
        lemma_lex_common_prefix(a.drop_first(), b.drop_first(), n - 1);
        assert(a.drop_first().skip(n - 1) =~= a.skip(n));
        assert(b.drop_first().skip(n - 1) =~= b.skip(n));
    } else {
        assert(a.skip(0) =~= a);
        assert(b.skip(0) =~= b);
    }
}

/// The three ways two byte strings can compare.
#[derive(Clone, Copy, Debug, PartialEq, Eq, Structural)]
pub enum KeyOrder {
    Less,
    Equal,
    Greater,
}

/// Compares two byte strings in the raw lexicographic key order.
pub fn lex_compare(a: &[u8], b: &[u8]) -> (r: KeyOrder)
    ensures
        r is Less <==> lex_lt(a@, b@),
        r is Equal <==> a@ == b@,
        r is Greater <==> lex_lt(b@, a@),
{
    let a_len = a.len();
    let b_len = b.len();
    let common = if a_len < b_len {
        a_len
    } else {
        b_len
    };
    let mut i: usize = 0;
    while i < common
        invariant
            0 <= i <= common,
            common <= a@.len(),
            common <= b@.len(),
            common == if a@.len() < b@.len() {
                a@.len()
            } else {
                b@.len()
            },
            a@.subrange(0, i as int) == b@.subrange(0, i as int),
        decreases common - i,
    {
        if a[i] < b[i] {
            proof {
                lemma_lex_common_prefix(a@, b@, i as int);
                lemma_lex_asym(a@.skip(i as int), b@.skip(i as int));
                lemma_lex_asym(a@, b@);
            }
            return KeyOrder::Less;
        }
        if a[i] > b[i] {
            proof {
                lemma_lex_common_prefix(a@, b@, i as int);
                lemma_lex_common_prefix(b@, a@, i as int);
                lemma_lex_asym(b@, a@);
            }
            return KeyOrder::Greater;
        }
        proof {
            assert(a@.subrange(0, i + 1) =~= b@.subrange(0, i + 1)) by {
                assert forall|j: int| 0 <= j < i + 1 implies #[trigger] a@.subrange(0, i + 1)[j]
                    == b@.subrange(0, i + 1)[j] by {
                    if j < i {
                        assert(a@.subrange(0, i as int)[j] == b@.subrange(0, i as int)[j]);
                    }
                }
            }
        }
        i = i + 1;
    }
    proof {
        lemma_lex_common_prefix(a@, b@, common as int);
        lemma_lex_common_prefix(b@, a@, common as int);
    }
    if a_len < b_len {
        proof {
            lemma_lex_asym(a@, b@);
        }
        KeyOrder::Less
    } else if a_len > b_len {
        proof {
            lemma_lex_asym(b@, a@);
        }
        KeyOrder::Greater
    } else {
        proof {
            assert(a@ =~= b@) by {
                assert forall|j: int| 0 <= j < a@.len() implies a@[j] == b@[j] by {
                    assert(a@.subrange(0, common as int)[j] == b@.subrange(0, common as int)[j]);
                }
            }
        }
        KeyOrder::Equal
    }
}

} // verus!
