//! Beneficiary identities and the total order in which they are stored:
//! ascending by the bytes of their UTF-8 encoding, as the host's key-value
//! store orders string keys.
use vstd::prelude::*;
use vstd::utf8::*;
use vstd::string::*;

verus! {

broadcast use {vstd::utf8::encode_utf8_decode_utf8, vstd::utf8::encode_utf8_valid_utf8};

/// Lexicographic "strictly less" on byte strings: at the first position
/// where they differ `a` holds the smaller byte, or `a` is a proper prefix.
pub open spec fn bytes_lt(a: Seq<u8>, b: Seq<u8>) -> bool {
    exists|i: int| #[trigger] lt_at(a, b, i)
}

/// `a` and `b` agree before `i`, and `i` is where `a` is found smaller.
pub open spec fn lt_at(a: Seq<u8>, b: Seq<u8>, i: int) -> bool {
    &&& 0 <= i <= a.len()
    &&& i <= b.len()
    &&& forall|j: int| 0 <= j < i ==> a[j] == b[j]
    &&& ((i == a.len() && i < b.len()) || (i < a.len() && i < b.len() && a[i] < b[i]))
}

/// The order on identities: by their UTF-8 bytes.
pub open spec fn id_lt(a: Seq<char>, b: Seq<char>) -> bool {
    bytes_lt(encode_utf8(a), encode_utf8(b))
}

pub proof fn lemma_bytes_lt_irreflexive(a: Seq<u8>)
    ensures
        !bytes_lt(a, a),
{
}

pub proof fn lemma_bytes_lt_transitive(a: Seq<u8>, b: Seq<u8>, c: Seq<u8>)
    requires
        bytes_lt(a, b),
        bytes_lt(b, c),
    ensures
        bytes_lt(a, c),
{
    let i = choose|i: int| lt_at(a, b, i);
    let k = choose|k: int| lt_at(b, c, k);
    if i < k {
        assert(lt_at(a, c, i));
    } else if i == k {
        assert(lt_at(a, c, i));
    } else {
        assert(lt_at(a, c, k));
    }
}

pub proof fn lemma_id_lt_irreflexive(a: Seq<char>)
    ensures
        !id_lt(a, a),
{
    lemma_bytes_lt_irreflexive(encode_utf8(a));
}

pub proof fn lemma_id_lt_transitive(a: Seq<char>, b: Seq<char>, c: Seq<char>)
    requires
        id_lt(a, b),
        id_lt(b, c),
    ensures
        id_lt(a, c),
{
    lemma_bytes_lt_transitive(encode_utf8(a), encode_utf8(b), encode_utf8(c));
}

/// View of a list of identities with amounts.
pub open spec fn pairs_view(v: Seq<(String, u128)>) -> Seq<(Seq<char>, u128)> {
    v.map_values(|e: (String, u128)| (e.0@, e.1))
}

/// Outcome of comparing two identities.
#[derive(PartialEq, Eq, Structural, Clone, Copy, Debug)]
pub enum KeyOrder {
    Less,
    Equal,
    Greater,
}

/// Compares two identities byte by byte.
pub fn compare_ids(a: &String, b: &String) -> (r: KeyOrder)
    ensures
        r == KeyOrder::Less <==> id_lt(a@, b@),
        r == KeyOrder::Equal <==> a@ == b@,
        r == KeyOrder::Greater <==> id_lt(b@, a@),
{
    let x = a.as_str().as_bytes();
    let y = b.as_str().as_bytes();
    proof {
        lemma_id_lt_irreflexive(a@);
        lemma_id_lt_irreflexive(b@);
    }
    let ghost ea = encode_utf8(a@);
    let ghost eb = encode_utf8(b@);
    assert(x@ == ea);
    assert(y@ == eb);
    let mut i: usize = 0;
    while i < x.len() && i < y.len()
        invariant
            ea == encode_utf8(a@),
            eb == encode_utf8(b@),
            x@ == ea,
            y@ == eb,
            0 <= i <= x@.len(),
            i <= y@.len(),
            forall|j: int| 0 <= j < i ==> ea[j] == eb[j],
        decreases x@.len() - i,
    {
        if x[i] < y[i] {
            assert(lt_at(ea, eb, i as int));
            assert(bytes_lt(ea, eb));
            proof {
                lemma_bytes_lt_asym(ea, eb);
            }
            return KeyOrder::Less;
        }
        if x[i] > y[i] {
            assert(lt_at(eb, ea, i as int));
            assert(bytes_lt(eb, ea));
            proof {
                lemma_bytes_lt_asym(eb, ea);
            }
            return KeyOrder::Greater;
        }
        i = i + 1;
    }
    if x.len() < y.len() {
        assert(lt_at(ea, eb, i as int));
        assert(bytes_lt(ea, eb));
        proof {
            lemma_bytes_lt_asym(ea, eb);
        }
        KeyOrder::Less
    } else if y.len() < x.len() {
        assert(lt_at(eb, ea, i as int));
        assert(bytes_lt(eb, ea));
        proof {
            lemma_bytes_lt_asym(eb, ea);
        }
        KeyOrder::Greater
    } else {
        assert(ea =~= eb);
        assert(decode_utf8(ea) == a@);
        assert(decode_utf8(eb) == b@);
        KeyOrder::Equal
    }
}

/// Strict order is asymmetric, and so distinguishes its arguments.
pub proof fn lemma_bytes_lt_asym(a: Seq<u8>, b: Seq<u8>)
    requires
        bytes_lt(a, b),
    ensures
        !bytes_lt(b, a),
        a != b,
{
    if bytes_lt(b, a) {
        lemma_bytes_lt_transitive(a, b, a);
        lemma_bytes_lt_irreflexive(a);
    }
    if a == b {
        lemma_bytes_lt_irreflexive(a);
    }
}

} // verus!
