//! Embeddings and the distance metric that ranks them.
//!
//! An embedding is a fixed-length ordered sequence of numeric values derived
//! from a note's text. The store compares embeddings by squared Euclidean
//! distance: smaller means more similar. Values are kept as integers (a
//! quantised representation of the model's output), which lets every distance
//! computation be exact and verified.

use vstd::prelude::*;

verus! {

/// Largest embedding dimension the store accepts; keeps every distance sum
/// comfortably inside `i128`.
pub const MAX_DIM: usize = 65536;

/// A fixed-length numeric vector representing the meaning of a text.
#[derive(Debug)]
pub struct Embedding {
    pub values: Vec<i32>,
}

impl View for Embedding {
    type V = Seq<i32>;

    open spec fn view(&self) -> Seq<i32> {
        self.values@
    }
}

impl Clone for Embedding {
    fn clone(&self) -> (r: Self)
        ensures
            r@ == self@,
    {
        Embedding { values: self.values.clone() }
    }
}

impl Embedding {
    /// Wrap a vector of values as an embedding.
    pub fn from_values(values: Vec<i32>) -> (r: Embedding)
        ensures
            r@ == values@,
    {
        Embedding { values }
    }

    /// The embedding's dimension.
    pub fn dim(&self) -> (r: usize)
        ensures
            r == self@.len(),
    {
        self.values.len()
    }

    /// Squared Euclidean distance to another embedding, or `None` when the
    /// dimensions differ or exceed `MAX_DIM`.
    pub fn squared_distance(&self, other: &Embedding) -> (r: Option<i128>)
        ensures
            r is Some <==> (self@.len() == other@.len() && self@.len() <= MAX_DIM),
            r matches Some(d) ==> d == sq_dist(self@, other@),
    {
        let n = self.values.len();
        if n != other.values.len() || n > MAX_DIM {
            return None;
        }
        let mut acc: i128 = 0;
        let mut i: usize = 0;
        while i < n
            invariant
                n == self@.len(),
                n == other@.len(),
                n <= MAX_DIM,
                i <= n,
                acc == sq_dist(self@.take(i as int), other@.take(i as int)),
                0 <= acc <= i * 0x1_0000_0000_0000_0000,
            decreases n - i,
        {
            let d: i64 = (self.values[i] as i64) - (other.values[i] as i64);
            proof {
                assert((d as int) * (d as int) <= 0xffff_ffff * 0xffff_ffff)
                    by (nonlinear_arith)
                    requires
                        -0x1_0000_0000 < (d as int),
                        (d as int) < 0x1_0000_0000,
                {}
                assert((d as int) * (d as int) >= 0) by (nonlinear_arith);
            }
            let term: i128 = (d as i128) * (d as i128);
            proof {
                let av = self@;
                let bv = other@;
                assert(av.take(i + 1).drop_last() =~= av.take(i as int));
                assert(bv.take(i + 1).drop_last() =~= bv.take(i as int));
            }
            acc = acc + term;
            i = i + 1;
        }
        proof {
            assert(self@.take(n as int) =~= self@);
            assert(other@.take(n as int) =~= other@);
        }
        Some(acc)
    }
}

/// Squared Euclidean distance between two equal-length value sequences.
pub open spec fn sq_dist(a: Seq<i32>, b: Seq<i32>) -> int
    recommends
        a.len() == b.len(),
    decreases a.len(),
{
    if a.len() == 0 || b.len() == 0 {
        0
    } else {
        sq_dist(a.drop_last(), b.drop_last()) + (a.last() - b.last()) * (a.last() - b.last())
    }
}

/// The distance of any embedding to itself is zero.
pub proof fn lemma_sq_dist_self_zero(a: Seq<i32>)
    ensures
        sq_dist(a, a) == 0,
    decreases a.len(),
{
    if a.len() > 0 {
        lemma_sq_dist_self_zero(a.drop_last());
    }
}

/// Squared distance is never negative.
pub proof fn lemma_sq_dist_nonneg(a: Seq<i32>, b: Seq<i32>)
    ensures
        sq_dist(a, b) >= 0,
    decreases a.len(),
{
    if a.len() > 0 && b.len() > 0 {
        lemma_sq_dist_nonneg(a.drop_last(), b.drop_last());
        let d = a.last() - b.last();
        assert(d * d >= 0) by (nonlinear_arith);
    }
}

} // verus!
