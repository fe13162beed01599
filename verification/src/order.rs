//! The order of strings: dictionary order by bytes, which is the order that
//! string slices have in Rust.

use vstd::prelude::*;
use vstd::string::StringSliceAdditionalSpecFns;
use vstd::utf8::encode_utf8_decode_utf8;

verus! {

/// Whether `a` and `b` agree on their first `k` bytes and part there in favour
/// of `a`: `a` ends at `k` and `b` goes on, or `a` has the smaller byte at `k`.
pub open spec fn parts_at(a: Seq<u8>, b: Seq<u8>, k: int) -> bool {
    &&& 0 <= k <= a.len()
    &&& k < b.len()
    &&& forall|j: int| 0 <= j < k ==> a[j] == b[j]
    &&& k < a.len() ==> a[k] < b[k]
}

/// Whether `a` comes before `b` in dictionary order.
pub open spec fn precedes(a: Seq<u8>, b: Seq<u8>) -> bool {
    exists|k: int| parts_at(a, b, k)
}

/// Of two byte strings at most one comes before the other, and then they differ.
pub proof fn lemma_precedes_asymmetric(a: Seq<u8>, b: Seq<u8>)
    requires
        precedes(a, b),
    ensures
        !precedes(b, a),
        a != b,
{
    let k = choose|k: int| parts_at(a, b, k);
    if precedes(b, a) {
        let m = choose|m: int| parts_at(b, a, m);
        assert(k == m);
    }
}

/// What comes before something that comes before `c` comes before `c`.
pub proof fn lemma_precedes_transitive(a: Seq<u8>, b: Seq<u8>, c: Seq<u8>)
    requires
        precedes(a, b),
        precedes(b, c),
    ensures
        precedes(a, c),
{
    let k = choose|k: int| parts_at(a, b, k);
    let m = choose|m: int| parts_at(b, c, m);
    let n = if k <= m { k } else { m };
    assert(parts_at(a, c, n));
}

/// How two strings stand to each other in the order.
#[derive(Debug)]
pub enum Rank {
    /// The first comes before the second.
    Before,
    /// The two are the same string.
    Same,
    /// The first comes after the second.
    After,
}

/// Where `a` stands relative to `b` in dictionary order.
pub fn rank(a: &str, b: &str) -> (r: Rank)
    ensures
        r is Before <==> precedes(a.spec_bytes(), b.spec_bytes()),
        r is Same <==> a@ == b@,
        r is After <==> precedes(b.spec_bytes(), a.spec_bytes()),
{
    let x = a.as_bytes();
    let y = b.as_bytes();
    proof {
        encode_utf8_decode_utf8(a@);
        encode_utf8_decode_utf8(b@);
    }
    let mut i: usize = 0;
    while i < x.len() && i < y.len()
        invariant
            i <= x.len(),
            i <= y.len(),
            x@ == a.spec_bytes(),
            y@ == b.spec_bytes(),
            forall|j: int| 0 <= j < i ==> x@[j] == y@[j],
        decreases x.len() - i,
    {
        if x[i] < y[i] {
            proof {
                assert(parts_at(x@, y@, i as int));
                lemma_precedes_asymmetric(x@, y@);
            }
            return Rank::Before;
        }
        if x[i] > y[i] {
            proof {
                assert(parts_at(y@, x@, i as int));
                lemma_precedes_asymmetric(y@, x@);
            }
            return Rank::After;
        }
        i += 1;
    }
    if x.len() < y.len() {
        proof {
            assert(parts_at(x@, y@, i as int));
            lemma_precedes_asymmetric(x@, y@);
        }
        Rank::Before
    } else if x.len() > y.len() {
        proof {
            assert(parts_at(y@, x@, i as int));
            lemma_precedes_asymmetric(y@, x@);
        }
        Rank::After
    } else {
        proof {
            assert(x@ =~= y@);
            if precedes(x@, y@) {
                lemma_precedes_asymmetric(x@, y@);
            }
        }
        Rank::Same
    }
}

} // verus!
