//! Meanings as vectors: how they are stored, and a stand-in for tests.
//!
//! A component is carried as the bits of its binary form; nothing here computes with it.
use vstd::prelude::*;
use vstd::utf8::encode_utf8;

verus! {

/// The bytes of a component, the lowest first.
pub open spec fn component_bytes(w: u32) -> Seq<u8> {
    seq![
        (w % 256) as u8,
        ((w / 256) % 256) as u8,
        ((w / 65536) % 256) as u8,
        ((w / 16777216) % 256) as u8,
    ]
}

/// The bytes of a vector.
pub open spec fn blob_of(v: Seq<u32>) -> Seq<u8>
    decreases v.len(),
{
    if v.len() == 0 {
        Seq::empty()
    } else {
        blob_of(v.drop_last()) + component_bytes(v.last())
    }
}

/// The component at a place of a byte string.
pub open spec fn component_at(b: Seq<u8>, i: int) -> u32 {
    (b[i] + 256 * b[i + 1] + 65536 * b[i + 2] + 16777216 * b[i + 3]) as u32
}

/// The vector in a byte string; what is left over behind the last whole component is not read.
pub open spec fn embedding_in(b: Seq<u8>) -> Seq<u32> {
    Seq::new((b.len() / 4) as nat, |i: int| component_at(b, 4 * i))
}

/// The bytes of a vector.
pub fn embedding_to_blob(v: &[u32]) -> (r: Vec<u8>)
    ensures
        r@ == blob_of(v@),
{
    let mut out: Vec<u8> = Vec::new();
    let mut i: usize = 0;
    while i < v.len()
        invariant
            i <= v@.len(),
            out@ == blob_of(v@.take(i as int)),
        decreases v@.len() - i,
    {
        let ghost before = out@;
        let w: u32 = v[i];
        out.push((w % 256) as u8);
        out.push(((w / 256) % 256) as u8);
        out.push(((w / 65536) % 256) as u8);
        out.push(((w / 16777216) % 256) as u8);
        assert(v@.take(i + 1).drop_last() =~= v@.take(i as int));
        assert(out@ =~= before + component_bytes(w));
        i = i + 1;
    }
    assert(v@.take(i as int) =~= v@);
    out
}

/// The vector in a byte string.
pub fn blob_to_embedding(b: &[u8]) -> (r: Vec<u32>)
    ensures
        r@ == embedding_in(b@),
{
    let n: usize = b.len() / 4;
    assert(4 * n <= b@.len()) by {
        assert(b@.len() == 4 * (b@.len() / 4) + b@.len() % 4);
    }
    let mut out: Vec<u32> = Vec::new();
    let mut i: usize = 0;
    while i < n
        invariant
            i <= n,
            n == b@.len() / 4,
            4 * n <= b@.len() <= usize::MAX,
            out@ == embedding_in(b@).take(i as int),
        decreases n - i,
    {
        assert(4 * i + 3 < b@.len());
        let k: usize = 4 * i;
        let w: u32 = b[k] as u32 + 256 * (b[k + 1] as u32) + 65536 * (b[k + 2] as u32) + 16777216 * (b[k + 3] as u32);
        out.push(w);
        assert(w == embedding_in(b@)[i as int]);
        assert(embedding_in(b@).take(i + 1) =~= embedding_in(b@).take(i as int).push(w));
        i = i + 1;
    }
    assert(embedding_in(b@).take(i as int) =~= embedding_in(b@));
    out
}

proof fn component_is_its_bytes(w: u32)
    ensures
        component_at(component_bytes(w), 0) == w,
{
    let a = (w % 256) as u8;
    let b = ((w / 256) % 256) as u8;
    let c = ((w / 65536) % 256) as u8;
    let d = ((w / 16777216) % 256) as u8;
    assert(w % 256 + 256 * ((w / 256) % 256) + 65536 * ((w / 65536) % 256) + 16777216 * ((w / 16777216) % 256) == w)
        by (bit_vector);
    assert(a + 256 * b + 65536 * c + 16777216 * d == w);
}

/// A vector is read back from its bytes.
pub proof fn embeddings_round_trip(v: Seq<u32>)
    ensures
        blob_of(v).len() == 4 * v.len(),
        embedding_in(blob_of(v)) == v,
    decreases v.len(),
{
    if v.len() > 0 {
        let d = v.drop_last();
        embeddings_round_trip(d);
        component_is_its_bytes(v.last());
        let b = blob_of(v);
        let e = blob_of(d);
        assert(b.len() == 4 * v.len());
        assert forall|i: int| 0 <= i < v.len() implies component_at(b, 4 * i) == v[i] by {
            if i < d.len() {
                assert(b[4 * i] == e[4 * i] && b[4 * i + 1] == e[4 * i + 1] && b[4 * i + 2] == e[4 * i + 2] && b[4 * i + 3]
                    == e[4 * i + 3]);
                assert(embedding_in(e)[i] == d[i]);
            } else {
                let w = component_bytes(v.last());
                assert(b[4 * i] == w[0] && b[4 * i + 1] == w[1] && b[4 * i + 2] == w[2] && b[4 * i + 3] == w[3]);
            }
        }
        assert(embedding_in(b) =~= v);
    } else {
        assert(embedding_in(blob_of(v)) =~= v);
    }
}

// ---------------------------------------------------------------------------
// A stand-in
// ---------------------------------------------------------------------------

/// Counts bytes instead of finding meanings: the same text always gives the same counts.
#[derive(Debug, Clone, Copy, PartialEq, Eq, Structural)]
pub struct MockEmbedder {
    dim: usize,
}

/// How many of the bytes, each moved on by its place, fall into a bucket.
pub open spec fn bucket(bytes: Seq<u8>, dim: int, k: int) -> nat
    decreases bytes.len(),
{
    if bytes.len() == 0 {
        0
    } else {
        bucket(bytes.drop_last(), dim, k) + (if (bytes.last() + (bytes.len() - 1)) % dim == k {
            1nat
        } else {
            0
        })
    }
}

impl MockEmbedder {
    /// The number of buckets.
    pub closed spec fn size(self) -> usize {
        self.dim
    }

    /// A stand-in with so many buckets.
    pub fn new(dim: usize) -> (r: MockEmbedder)
        ensures
            r.size() == dim,
    {
        MockEmbedder { dim }
    }

    /// The number of buckets.
    pub fn dim(&self) -> (r: usize)
        ensures
            r == self.size(),
    {
        self.dim
    }

    /// The name under which its vectors are stored.
    pub fn model_id(&self) -> (r: &'static str)
        ensures
            r@ == "mock"@,
    {
        "mock"
    }

    /// The counts of a text. The vector is these counts scaled to length one.
    pub fn buckets(&self, text: &str) -> (r: Vec<u64>)
        requires
            self.size() > 0,
        ensures
            r@.len() == self.size(),
            forall|k: int| 0 <= k < r@.len() ==> #[trigger] r@[k] == bucket(encode_utf8(text@), self.size() as int, k),
    {
        let bytes = text.as_bytes();
        let n: usize = self.dim;
        let mut r: Vec<u64> = Vec::new();
        let mut j: usize = 0;
        while j < n
            invariant
                j <= n,
                r@.len() == j,
                forall|k: int| 0 <= k < j ==> #[trigger] r@[k] == 0,
            decreases n - j,
        {
            r.push(0);
            j = j + 1;
        }
        let mut i: usize = 0;
        assert(forall|k: int| 0 <= k < n ==> bucket(bytes@.take(0), n as int, k) == 0);
        while i < bytes.len()
            invariant
                i <= bytes@.len(),
                n > 0,
                r@.len() == n,
                forall|k: int| 0 <= k < n ==> #[trigger] r@[k] == bucket(bytes@.take(i as int), n as int, k),
                forall|k: int| 0 <= k < n ==> #[trigger] r@[k] <= i,
            decreases bytes@.len() - i,
        {
            let p: usize = ((bytes[i] as u128 + i as u128) % (n as u128)) as usize;
            assert(p == (bytes@[i as int] + i) % n as int);
            assert(bytes@.take(i + 1).drop_last() =~= bytes@.take(i as int));
            assert(bytes@.take(i + 1).last() == bytes@[i as int]);
            let ghost before = r@;
            let c: u64 = r[p];
            r.set(p, c + 1);
            assert forall|k: int| 0 <= k < n implies #[trigger] r@[k] == bucket(bytes@.take(i + 1), n as int, k) && r@[k] <= i
                + 1 by {
                assert(before[k] == bucket(bytes@.take(i as int), n as int, k));
                if k != p {
                    assert(r@[k] == before[k]);
                }
            }
            i = i + 1;
        }
        assert(bytes@.take(i as int) =~= bytes@);
        r
    }
}

} // verus!
