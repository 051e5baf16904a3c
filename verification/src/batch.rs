//! Cutting a run into batches of a fixed size, each batch a stretch of
//! documents that follow one another.

use crate::generator::{generate_zpl, label_text};
use crate::range::RangeSource;
use crate::tag::TagData;
use vstd::prelude::*;

verus! {

/// The batch size that a configured size stands for. A size of zero leaves
/// one document to a batch.
pub open spec fn effective_chunk(chunk: nat) -> nat {
    if chunk == 0 {
        1
    } else {
        chunk
    }
}

/// How many batches `count` documents make at `chunk` documents to a batch.
pub open spec fn batch_count(count: nat, chunk: nat) -> nat
    recommends
        chunk > 0,
{
    ((count + chunk - 1) / chunk as int) as nat
}

/// The index of the first document of batch `k`.
pub open spec fn batch_start(chunk: nat, k: nat) -> nat {
    k * chunk
}

/// The index after the last document of batch `k`.
pub open spec fn batch_end(count: nat, chunk: nat, k: nat) -> nat {
    if (k + 1) * chunk < count {
        (k + 1) * chunk
    } else {
        count
    }
}

/// How many documents the batch that starts at `start` holds.
pub open spec fn batch_len(count: nat, chunk: nat, start: nat) -> nat {
    if start >= count {
        0
    } else if count - start < effective_chunk(chunk) {
        (count - start) as nat
    } else {
        effective_chunk(chunk)
    }
}

/// Whether the documents follow one another without a gap, each index one
/// more than the one before.
pub open spec fn contiguous(docs: Seq<TagData>) -> bool {
    forall|i: int|
        0 <= i < docs.len() ==> (#[trigger] docs[i]).spec_index() == docs[0].spec_index() + i
}

/// Whether `docs` are the labels of the serial numbers that `serials` holds
/// from `start` on, each under its index in `serials`.
pub open spec fn renders(docs: Seq<TagData>, serials: Seq<u32>, start: int) -> bool {
    &&& 0 <= start
    &&& start + docs.len() <= serials.len()
    &&& forall|i: int|
        0 <= i < docs.len() ==> {
            &&& (#[trigger] docs[i]).spec_index() == start + i
            &&& docs[i].spec_data() == label_text(serials[start + i])
        }
}

/// The number of batches is the quotient of the count by the batch size,
/// rounded up.
pub proof fn lemma_batch_count_rounds_up(count: nat, chunk: nat)
    requires
        chunk > 0,
    ensures
        batch_count(count, chunk) == count / chunk + if count % chunk == 0 {
            0nat
        } else {
            1nat
        },
        (batch_count(count, chunk) == 0) == (count == 0),
        count <= batch_count(count, chunk) * chunk < count + chunk,
{
    let q = count / chunk;
    let r = count % chunk;
    assert(count == q * chunk + r && 0 <= r < chunk) by (nonlinear_arith)
        requires
            chunk > 0,
            q == count / chunk,
            r == count % chunk,
    ;
    if r == 0 {
        assert((q * chunk + chunk - 1) / chunk as int == q) by (nonlinear_arith)
            requires
                chunk > 0,
                q >= 0,
        ;
        assert(q > 0 || count == 0) by (nonlinear_arith)
            requires
                count == q * chunk,
                q >= 0,
        ;
    } else {
        assert((q * chunk + r + chunk - 1) / chunk as int == q + 1) by (nonlinear_arith)
            requires
                chunk > 0,
                q >= 0,
                0 < r < chunk,
        ;
        assert((q + 1) * chunk == q * chunk + chunk) by (nonlinear_arith);
    }
}

/// Every batch but the last holds `chunk` documents; the last holds what is
/// left over, or `chunk` where nothing is.
pub proof fn lemma_batch_sizes(count: nat, chunk: nat, k: nat)
    requires
        chunk > 0,
        k < batch_count(count, chunk),
    ensures
        batch_start(chunk, k) < batch_end(count, chunk, k) <= count,
        k + 1 < batch_count(count, chunk) ==> batch_end(count, chunk, k) - batch_start(chunk, k)
            == chunk,
        k + 1 == batch_count(count, chunk) ==> batch_end(count, chunk, k) - batch_start(chunk, k)
            == if count % chunk == 0 {
            chunk
        } else {
            count % chunk
        },
        batch_end(count, chunk, k) - batch_start(chunk, k) == batch_len(
            count,
            chunk,
            batch_start(chunk, k),
        ),
{
    lemma_batch_count_rounds_up(count, chunk);
    let n = batch_count(count, chunk);
    let q = count / chunk;
    let r = count % chunk;
    assert(count == q * chunk + r && 0 <= r < chunk) by (nonlinear_arith)
        requires
            chunk > 0,
            q == count / chunk,
            r == count % chunk,
    ;
    assert((k + 1) * chunk == k * chunk + chunk) by (nonlinear_arith);
    if k + 1 < n {
        assert((k + 1) * chunk <= (n - 1) * chunk) by (nonlinear_arith)
            requires
                k + 1 <= n - 1,
                chunk > 0,
        ;
        assert((n - 1) * chunk == n * chunk - chunk) by (nonlinear_arith);
    } else {
        assert(k * chunk == n * chunk - chunk) by (nonlinear_arith)
            requires
                k + 1 == n,
        ;
    }
}

/// The batches tile the run: the first starts at zero, each starts where the
/// one before ends, and the last ends with the run.
pub proof fn lemma_batches_tile(count: nat, chunk: nat, k: nat)
    requires
        chunk > 0,
        k < batch_count(count, chunk),
    ensures
        batch_start(chunk, 0) == 0,
        k + 1 < batch_count(count, chunk) ==> batch_end(count, chunk, k) == batch_start(
            chunk,
            k + 1,
        ),
        k + 1 == batch_count(count, chunk) ==> batch_end(count, chunk, k) == count,
{
    lemma_batch_sizes(count, chunk, k);
    lemma_batch_count_rounds_up(count, chunk);
    assert((k + 1) * chunk == k * chunk + chunk) by (nonlinear_arith);
}

/// Each index of the run lies in one batch and in no other.
pub proof fn lemma_index_in_one_batch(count: nat, chunk: nat, i: nat, k: nat)
    requires
        chunk > 0,
        i < count,
        k < batch_count(count, chunk),
    ensures
        i / chunk < batch_count(count, chunk),
        (batch_start(chunk, k) <= i < batch_end(count, chunk, k)) <==> k == i / chunk,
{
    lemma_batch_count_rounds_up(count, chunk);
    lemma_batch_sizes(count, chunk, k);
    let n = batch_count(count, chunk);
    let home = i / chunk;
    assert(i == home * chunk + i % chunk && 0 <= i % chunk < chunk && home >= 0)
        by (nonlinear_arith)
        requires
            chunk > 0,
            home == i / chunk,
            i >= 0,
    ;
    assert(home < n) by (nonlinear_arith)
        requires
            home * chunk <= i,
            i < count,
            count <= n * chunk,
            chunk > 0,
    ;
    assert((k + 1) * chunk == k * chunk + chunk) by (nonlinear_arith);
    if k < home {
        assert((k + 1) * chunk <= home * chunk) by (nonlinear_arith)
            requires
                k + 1 <= home,
                chunk > 0,
        ;
    } else if k > home {
        assert((home + 1) * chunk <= k * chunk) by (nonlinear_arith)
            requires
                home + 1 <= k,
                chunk > 0,
        ;
        assert((home + 1) * chunk == home * chunk + chunk) by (nonlinear_arith);
    }
}

/// A stretch of documents with indices that follow one another. An empty
/// batch is allowed and stands for no file.
pub struct Batch {
    docs: Vec<TagData>,
}

impl View for Batch {
    type V = Seq<TagData>;

    closed spec fn view(&self) -> Seq<TagData> {
        self.docs@
    }
}

impl Batch {
    #[verifier::type_invariant]
    spec fn in_order(&self) -> bool {
        contiguous(self.docs@)
    }

    /// The batch made of `docs`, where their indices follow one another.
    pub fn new(docs: Vec<TagData>) -> (batch: Option<Self>)
        ensures
            batch is Some <==> contiguous(docs@),
            batch matches Some(b) ==> b@ == docs@,
    {
        let n = docs.len();
        if n == 0 {
            return Some(Batch { docs });
        }
        let first = docs[0].index();
        let mut i: usize = 1;
        while i < n
            invariant
                1 <= i <= n,
                n == docs@.len(),
                first == docs@[0].spec_index(),
                forall|j: int| 0 <= j < i ==> (#[trigger] docs@[j]).spec_index() == first + j,
            decreases n - i,
        {
            let index = docs[i].index();
            if index < first || index - first != i {
                return None;
            }
            i += 1;
        }
        Some(Batch { docs })
    }

    /// The documents that the run of `source` has from index `start` on, at
    /// most `chunk` of them, and one where `chunk` is zero.
    pub fn render(source: &RangeSource, start: usize, chunk: usize) -> (batch: Self)
        ensures
            batch@.len() == batch_len(source@.len(), chunk as nat, start as nat),
            batch@.len() > 0 ==> renders(batch@, source@, start as int),
    {
        let count = source.len();
        let chunk = if chunk == 0 {
            1
        } else {
            chunk
        };
        let mut docs: Vec<TagData> = Vec::new();
        if start >= count {
            return Batch { docs };
        }
        let len = if count - start < chunk {
            count - start
        } else {
            chunk
        };
        let mut i: usize = 0;
        while i < len
            invariant
                i <= len,
                start + len <= count,
                count == source@.len(),
                docs@.len() == i,
                renders(docs@, source@, start as int),
            decreases len - i,
        {
            let serial = match source.get(start + i) {
                Some(serial) => serial,
                None => vstd::pervasive::unreached(),
            };
            docs.push(TagData::new(start + i, generate_zpl(serial)));
            i += 1;
        }
        Batch { docs }
    }

    /// The documents of the batch, in ascending order of index.
    pub fn documents(&self) -> (docs: &[TagData])
        ensures
            docs@ == self@,
            contiguous(docs@),
    {
        proof {
            use_type_invariant(self);
        }
        self.docs.as_slice()
    }

    /// Hands out the documents of the batch, in ascending order of index.
    pub fn into_documents(self) -> (docs: Vec<TagData>)
        ensures
            docs@ == self@,
            contiguous(docs@),
    {
        proof {
            use_type_invariant(&self);
        }
        self.docs
    }

    /// How many documents the batch holds.
    pub fn len(&self) -> (n: usize)
        ensures
            n == self@.len(),
    {
        self.docs.len()
    }
}

} // verus!
