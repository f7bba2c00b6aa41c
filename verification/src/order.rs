//! The order in which paths are kept: that of their UTF-8 bytes, which is the
//! order of `str`.

use vstd::prelude::*;
use vstd::utf8::*;

verus! {

/// `a` and `b` agree on their first `i` bytes, and there `a` ends or holds the
/// smaller byte.
pub open spec fn first_gap(a: Seq<u8>, b: Seq<u8>, i: int) -> bool {
    &&& 0 <= i <= a.len()
    &&& i < b.len()
    &&& forall|j: int| 0 <= j < i ==> a[j] == b[j]
    &&& i < a.len() ==> a[i] < b[i]
}

/// The strict lexicographic order on byte strings.
pub open spec fn bytes_before(a: Seq<u8>, b: Seq<u8>) -> bool {
    exists|i: int| first_gap(a, b, i)
}

/// The strict order on paths: the lexicographic order of their UTF-8 encodings.
pub open spec fn path_before(a: Seq<char>, b: Seq<char>) -> bool {
    bytes_before(encode_utf8(a), encode_utf8(b))
}

/// How one path stands to another in the order of paths.
#[derive(Debug, Clone, Copy, PartialEq, Eq, Structural)]
pub enum Rank {
    Before,
    Same,
    After,
}

/// No byte string comes before itself.
pub proof fn lemma_bytes_before_irreflexive(a: Seq<u8>)
    ensures
        !bytes_before(a, a),
{
}

/// The order on byte strings is transitive.
pub proof fn lemma_bytes_before_transitive(a: Seq<u8>, b: Seq<u8>, c: Seq<u8>)
    requires
        bytes_before(a, b),
        bytes_before(b, c),
    ensures
        bytes_before(a, c),
{
    let i = choose|i: int| first_gap(a, b, i);
    let j = choose|j: int| first_gap(b, c, j);
    if i <= j {
        assert(first_gap(a, c, i));
    } else {
        assert(first_gap(a, c, j));
    }
}

/// No path comes before itself, so paths in strictly ascending order are distinct.
pub proof fn lemma_path_before_irreflexive(a: Seq<char>)
    ensures
        !path_before(a, a),
{
    lemma_bytes_before_irreflexive(encode_utf8(a));
}

/// The order on paths is transitive.
pub proof fn lemma_path_before_transitive(a: Seq<char>, b: Seq<char>, c: Seq<char>)
    requires
        path_before(a, b),
        path_before(b, c),
    ensures
        path_before(a, c),
{
    lemma_bytes_before_transitive(encode_utf8(a), encode_utf8(b), encode_utf8(c));
}

/// At most one of the three holds: `a` before `b`, `a` equal to `b`, `b` before `a`.
pub proof fn lemma_path_before_exclusive(a: Seq<char>, b: Seq<char>)
    ensures
        !(path_before(a, b) && a == b),
        !(path_before(b, a) && a == b),
        !(path_before(a, b) && path_before(b, a)),
{
    lemma_path_before_irreflexive(a);
    if path_before(a, b) && path_before(b, a) {
        lemma_path_before_transitive(a, b, a);
    }
}

/// Compares two paths byte by byte.
pub fn rank(a: &str, b: &str) -> (r: Rank)
    ensures
        r == Rank::Before <==> path_before(a@, b@),
        r == Rank::Same <==> a@ == b@,
        r == Rank::After <==> path_before(b@, a@),
{
    let x = a.as_bytes();
    let y = b.as_bytes();
    proof {
        lemma_path_before_exclusive(a@, b@);
    }
    let mut i: usize = 0;
    while i < x.len() && i < y.len()
        invariant
            i <= x@.len(),
            i <= y@.len(),
            x@ == encode_utf8(a@),
            y@ == encode_utf8(b@),
            forall|j: int| 0 <= j < i ==> x@[j] == y@[j],
            !(path_before(a@, b@) && a@ == b@),
            !(path_before(b@, a@) && a@ == b@),
            !(path_before(a@, b@) && path_before(b@, a@)),
        decreases x@.len() - i,
    {
        if x[i] < y[i] {
            assert(first_gap(x@, y@, i as int));
            return Rank::Before;
        }
        if x[i] > y[i] {
            assert(first_gap(y@, x@, i as int));
            return Rank::After;
        }
        i += 1;
    }
    if i < y.len() {
        assert(first_gap(x@, y@, i as int));
        Rank::Before
    } else if i < x.len() {
        assert(first_gap(y@, x@, i as int));
        Rank::After
    } else {
        proof {
            assert(x@ =~= y@);
            encode_utf8_decode_utf8(a@);
            encode_utf8_decode_utf8(b@);
        }
        Rank::Same
    }
}

} // verus!
