//! The order in which a vault keeps its record names.
//!
//! Names are ordered as their UTF-8 encodings are, byte by byte, a proper
//! prefix before what extends it.

use vstd::prelude::*;
use vstd::utf8::encode_utf8;

verus! {

/// `a` and `b` agree on their first `k` bytes, and there `a` ends or has the
/// smaller byte.
pub open spec fn parts_at(a: Seq<u8>, b: Seq<u8>, k: int) -> bool {
    &&& 0 <= k <= a.len()
    &&& k < b.len()
    &&& forall|j: int| 0 <= j < k ==> a[j] == b[j]
    &&& k < a.len() ==> a[k] < b[k]
}

/// `a` comes strictly before `b` in the lexicographic order of bytes.
pub open spec fn bytes_before(a: Seq<u8>, b: Seq<u8>) -> bool {
    exists|k: int| parts_at(a, b, k)
}

/// The name `a` comes strictly before the name `b`.
pub open spec fn name_before(a: Seq<char>, b: Seq<char>) -> bool {
    bytes_before(encode_utf8(a), encode_utf8(b))
}

/// How one name stands to another.
#[derive(Debug, Clone, Copy, PartialEq, Eq, Structural)]
pub enum Rank {
    /// It comes before the other.
    Before,
    /// The two are the same name.
    Same,
    /// It comes after the other.
    After,
}

/// No byte string comes before itself.
pub proof fn lemma_before_irreflexive(a: Seq<u8>)
    ensures
        !bytes_before(a, a),
{
}

/// What comes before something that comes before `c` comes before `c`.
pub proof fn lemma_before_transitive(a: Seq<u8>, b: Seq<u8>, c: Seq<u8>)
    requires
        bytes_before(a, b),
        bytes_before(b, c),
    ensures
        bytes_before(a, c),
{
    let k1 = choose|k: int| parts_at(a, b, k);
    let k2 = choose|k: int| parts_at(b, c, k);
    let k = if k1 <= k2 { k1 } else { k2 };
    assert(parts_at(a, c, k));
}

/// Of two byte strings, one comes first or they are equal, and only one of
/// the three holds.
pub proof fn lemma_before_total(a: Seq<u8>, b: Seq<u8>)
    ensures
        bytes_before(a, b) || a == b || bytes_before(b, a),
        !(bytes_before(a, b) && bytes_before(b, a)),
        !(bytes_before(a, b) && a == b),
    decreases a.len(),
{
    if bytes_before(a, b) && bytes_before(b, a) {
        lemma_before_transitive(a, b, a);
    }
    if a.len() == 0 {
        if b.len() > 0 {
            assert(parts_at(a, b, 0));
        } else {
            assert(a =~= b);
        }
    } else if b.len() == 0 {
        assert(parts_at(b, a, 0));
    } else if a[0] < b[0] {
        assert(parts_at(a, b, 0));
    } else if b[0] < a[0] {
        assert(parts_at(b, a, 0));
    } else {
        let ta = a.skip(1);
        let tb = b.skip(1);
        lemma_before_total(ta, tb);
        if bytes_before(ta, tb) {
            let k = choose|k: int| parts_at(ta, tb, k);
            assert forall|j: int| 0 <= j < k + 1 implies a[j] == b[j] by {
                if j > 0 {
                    assert(ta[j - 1] == tb[j - 1]);
                }
            }
            assert(k < ta.len() ==> ta[k] < tb[k]);
            assert(parts_at(a, b, k + 1));
        } else if bytes_before(tb, ta) {
            let k = choose|k: int| parts_at(tb, ta, k);
            assert forall|j: int| 0 <= j < k + 1 implies b[j] == a[j] by {
                if j > 0 {
                    assert(tb[j - 1] == ta[j - 1]);
                }
            }
            assert(k < tb.len() ==> tb[k] < ta[k]);
            assert(parts_at(b, a, k + 1));
        } else {
            assert(a =~= b) by {
                assert forall|j: int| 0 <= j < a.len() implies a[j] == b[j] by {
                    if j > 0 {
                        assert(ta[j - 1] == tb[j - 1]);
                    }
                }
            }
        }
    }
}

/// Two names with the same UTF-8 encoding are the same name.
pub proof fn lemma_encoding_injective(a: Seq<char>, b: Seq<char>)
    requires
        encode_utf8(a) == encode_utf8(b),
    ensures
        a == b,
{
    vstd::utf8::encode_utf8_decode_utf8(a);
    vstd::utf8::encode_utf8_decode_utf8(b);
}

/// Compares two byte strings in lexicographic order.
pub fn rank_bytes(a: &[u8], b: &[u8]) -> (r: Rank)
    ensures
        r == Rank::Before <==> bytes_before(a@, b@),
        r == Rank::Same <==> a@ == b@,
        r == Rank::After <==> bytes_before(b@, a@),
{
    proof {
        lemma_before_total(a@, b@);
        lemma_before_irreflexive(a@);
    }
    let mut i: usize = 0;
    while i < a.len() && i < b.len()
        invariant
            i <= a.len(),
            i <= b.len(),
            forall|j: int| 0 <= j < i ==> a@[j] == b@[j],
        decreases a.len() - i,
    {
        if a[i] < b[i] {
            assert(parts_at(a@, b@, i as int));
            return Rank::Before;
        }
        if b[i] < a[i] {
            assert(parts_at(b@, a@, i as int));
            return Rank::After;
        }
        i += 1;
    }
    if i < b.len() {
        assert(parts_at(a@, b@, i as int));
        Rank::Before
    } else if i < a.len() {
        assert(parts_at(b@, a@, i as int));
        Rank::After
    } else {
        assert(a@ =~= b@);
        Rank::Same
    }
}

/// Compares two names in the order of the vault.
pub fn rank_names(a: &str, b: &str) -> (r: Rank)
    ensures
        r == Rank::Before <==> name_before(a@, b@),
        r == Rank::Same <==> a@ == b@,
        r == Rank::After <==> name_before(b@, a@),
{
    proof {
        if encode_utf8(a@) == encode_utf8(b@) {
            lemma_encoding_injective(a@, b@);
        }
    }
    rank_bytes(a.as_bytes(), b.as_bytes())
}

} // verus!
