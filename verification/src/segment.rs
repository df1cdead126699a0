//! Segmentation: splitting a byte payload into fixed-size chunks for
//! transmission, and reassembling chunks in order on the receiving side.
//! The last chunk may be shorter than the configured size; a 0-byte payload
//! yields zero chunks.

use vstd::prelude::*;

verus! {

/// How many chunks a payload of `len` bytes yields at chunk size `size`.
pub open spec fn num_chunks(len: nat, size: nat) -> nat {
    if size == 0 {
        0
    } else {
        ((len + size - 1) / size as int) as nat
    }
}

/// The end position of chunk `i`: the next chunk boundary, clipped to the
/// payload length.
pub open spec fn chunk_end(len: nat, size: nat, i: nat) -> int {
    if (i + 1) * size <= len {
        ((i + 1) * size) as int
    } else {
        len as int
    }
}

/// Chunk `i` of a payload: the bytes from the `i`-th chunk boundary to the
/// next one, the last chunk clipped to the payload length.
pub open spec fn chunk_at(data: Seq<u8>, size: nat, i: nat) -> Seq<u8> {
    data.subrange((i * size) as int, chunk_end(data.len(), size, i))
}

/// The chunk sequence of a payload.
pub open spec fn chunks_of(data: Seq<u8>, size: nat) -> Seq<Seq<u8>> {
    Seq::new(num_chunks(data.len(), size), |i: int| chunk_at(data, size, i as nat))
}

/// The concatenation of a sequence of chunks, in order.
pub open spec fn concat_chunks(chunks: Seq<Seq<u8>>) -> Seq<u8>
    decreases chunks.len(),
{
    if chunks.len() == 0 {
        Seq::empty()
    } else {
        chunks[0] + concat_chunks(chunks.drop_first())
    }
}

proof fn lemma_concat_take_succ(chunks: Seq<Seq<u8>>, j: int)
    requires
        0 <= j < chunks.len(),
    ensures
        concat_chunks(chunks.take(j + 1)) == concat_chunks(chunks.take(j)) + chunks[j],
    decreases j,
{
    if j == 0 {
        assert(chunks.take(1).drop_first() =~= Seq::<Seq<u8>>::empty());
        assert(chunks.take(1)[0] == chunks[0]);
        assert(concat_chunks(chunks.take(0)) =~= Seq::<u8>::empty());
        assert(concat_chunks(chunks.take(1)) == chunks.take(1)[0] + concat_chunks(
            chunks.take(1).drop_first(),
        ));
        assert(concat_chunks(Seq::<Seq<u8>>::empty()) =~= Seq::<u8>::empty());
        assert(chunks[0] + Seq::<u8>::empty() =~= chunks[0]);
        assert(Seq::<u8>::empty() + chunks[0] =~= chunks[0]);
    } else {
        lemma_concat_take_succ(chunks.drop_first(), j - 1);
        assert(chunks.take(j + 1)[0] == chunks[0]);
        assert(chunks.take(j)[0] == chunks[0]);
        assert(chunks.take(j + 1).drop_first() =~= chunks.drop_first().take(j));
        assert(chunks.take(j).drop_first() =~= chunks.drop_first().take(j - 1));
        assert(chunks.drop_first()[j - 1] == chunks[j]);
        assert(concat_chunks(chunks.take(j)) + chunks[j] =~= chunks[0] + (concat_chunks(
            chunks.drop_first().take(j - 1),
        ) + chunks[j]));
    }
}

/// A 0-byte payload produces zero chunks.
pub proof fn lemma_chunks_empty(data: Seq<u8>, size: nat)
    requires
        data.len() == 0,
    ensures
        chunks_of(data, size).len() == 0,
{
    if size > 0 {
        assert((0 + size - 1) / size as int == 0) by (nonlinear_arith)
            requires
                size > 0,
        ;
    }
}

/// Every chunk before the last has exactly the configured size, and a
/// payload exactly divisible by the chunk size has no undersized trailing
/// chunk: all its chunks have the configured size.
pub proof fn lemma_chunk_sizes(data: Seq<u8>, size: nat, i: nat)
    requires
        size > 0,
        i < num_chunks(data.len(), size),
    ensures
        i + 1 < num_chunks(data.len(), size) ==> chunks_of(data, size)[i as int].len() == size,
        data.len() % size == 0 ==> chunks_of(data, size)[i as int].len() == size,
        i + 1 == num_chunks(data.len(), size) && data.len() % size != 0 ==> chunks_of(data, size)[
            i as int
        ].len() == data.len() % size,
        chunks_of(data, size)[i as int].len() <= data.len(),
    decreases i,
{
    let len = data.len();
    let n = num_chunks(len, size);
    assert(n * size >= len && (n - 1) * size < len) by (nonlinear_arith)
        requires
            size > 0,
            n == ((len + size - 1) / size as int),
    ;
    assert(i * size < len) by (nonlinear_arith)
        requires
            size > 0,
            i < n,
            (n - 1) * size < len,
    ;
    assert((i + 1) * size == i * size + size) by (nonlinear_arith);
    assert(chunks_of(data, size)[i as int] == chunk_at(data, size, i));
    assert(i * size <= chunk_end(len, size, i) <= len);
    assert(chunk_at(data, size, i).len() == chunk_end(len, size, i) - i * size);
    if i + 1 < n {
        assert((i + 1) * size <= (n - 1) * size) by (nonlinear_arith)
            requires
                i + 1 <= n - 1,
                size > 0,
        ;
        assert(chunk_end(len, size, i) == i * size + size);
    } else {
        assert(i + 1 == n);
        if len % size == 0 {
            assert(n * size == len) by (nonlinear_arith)
                requires
                    size > 0,
                    len % size == 0,
                    n == ((len + size - 1) / size as int),
            ;
            assert(chunk_end(len, size, i) == i * size + size);
        } else {
            assert(len == (n - 1) * size + len % size) by (nonlinear_arith)
                requires
                    size > 0,
                    len % size != 0,
                    n == ((len + size - 1) / size as int),
            ;
            assert((i + 1) * size > len);
            assert(chunk_end(len, size, i) == len);
        }
    }
}

/// The end position of the payload prefix that the first `k` chunks cover.
pub open spec fn prefix_end(len: nat, size: nat, k: nat) -> int {
    if k * size <= len {
        (k * size) as int
    } else {
        len as int
    }
}

/// Appending chunk `k` to the payload prefix the first `k` chunks cover
/// gives the prefix the first `k + 1` chunks cover.
pub proof fn lemma_prefix_extend(data: Seq<u8>, size: nat, k: nat)
    requires
        size > 0,
        k < num_chunks(data.len(), size),
    ensures
        data.take(prefix_end(data.len(), size, k)) + chunk_at(data, size, k) == data.take(
            prefix_end(data.len(), size, k + 1),
        ),
{
    let len = data.len();
    let n = num_chunks(len, size);
    assert((n - 1) * size < len) by (nonlinear_arith)
        requires
            size > 0,
            n == ((len + size - 1) / size as int),
    ;
    assert(k * size < len) by (nonlinear_arith)
        requires
            size > 0,
            k < n,
            (n - 1) * size < len,
    ;
    assert((k + 1) * size == k * size + size) by (nonlinear_arith);
    assert(prefix_end(len, size, k) == k * size);
    assert(chunk_end(len, size, k) == prefix_end(len, size, k + 1));
    assert(data.take(prefix_end(len, size, k)) + data.subrange(
        (k * size) as int,
        chunk_end(len, size, k),
    ) =~= data.take(chunk_end(len, size, k)));
}

/// After all chunks, the covered prefix is the whole payload.
pub proof fn lemma_prefix_complete(data: Seq<u8>, size: nat)
    requires
        size > 0,
    ensures
        data.take(prefix_end(data.len(), size, num_chunks(data.len(), size))) == data,
{
    let len = data.len();
    let n = num_chunks(len, size);
    assert(n * size >= len) by (nonlinear_arith)
        requires
            size > 0,
            n == ((len + size - 1) / size as int),
    ;
    assert(prefix_end(len, size, n) == len);
    assert(data.take(len as int) =~= data);
}

/// The first `k` chunks concatenated are exactly the first bytes of the
/// payload up to the `k`-th chunk boundary (clipped to the payload length).
pub proof fn lemma_chunks_prefix(data: Seq<u8>, size: nat, k: nat)
    requires
        size > 0,
        k <= num_chunks(data.len(), size),
    ensures
        concat_chunks(chunks_of(data, size).take(k as int)) == data.take(
            if k * size <= data.len() {
                (k * size) as int
            } else {
                data.len() as int
            },
        ),
    decreases k,
{
    let len = data.len();
    let n = num_chunks(len, size);
    if k == 0 {
        assert(chunks_of(data, size).take(0) =~= Seq::<Seq<u8>>::empty());
        assert(data.take(0) =~= Seq::<u8>::empty());
    } else {
        lemma_chunks_prefix(data, size, (k - 1) as nat);
        lemma_concat_take_succ(chunks_of(data, size), k - 1);
        assert((k - 1) * size < len && (k - 1) * size == k * size - size) by (nonlinear_arith)
            requires
                size > 0,
                k >= 1,
                k <= n,
                n == ((len + size - 1) / size as int),
        ;
        let prev_end: int = if (k - 1) * size <= len {
            ((k - 1) * size) as int
        } else {
            len as int
        };
        let this_end: int = chunk_end(len, size, (k - 1) as nat);
        assert(prev_end == (k - 1) * size);
        assert(chunks_of(data, size)[k - 1] == data.subrange(prev_end, this_end));
        assert(data.take(prev_end) + data.subrange(prev_end, this_end) =~= data.take(this_end));
        assert(this_end == if k * size <= len {
            (k * size) as int
        } else {
            len as int
        });
    }
}

/// Reassembling all chunks of a payload, in order, gives back the payload.
pub proof fn lemma_chunks_concat(data: Seq<u8>, size: nat)
    requires
        size > 0,
    ensures
        concat_chunks(chunks_of(data, size)) == data,
{
    let len = data.len();
    let n = num_chunks(len, size);
    assert(n * size >= len) by (nonlinear_arith)
        requires
            size > 0,
            n == ((len + size - 1) / size as int),
    ;
    lemma_chunks_prefix(data, size, n);
    assert(chunks_of(data, size).take(n as int) =~= chunks_of(data, size));
    assert(data.take(len as int) =~= data);
}

/// Concatenates received chunks in the order given.
pub fn reassemble(chunks: &Vec<Vec<u8>>) -> (r: Vec<u8>)
    ensures
        r@ == concat_chunks(chunks.deep_view()),
{
    let mut out: Vec<u8> = Vec::new();
    let mut j: usize = 0;
    while j < chunks.len()
        invariant
            j <= chunks@.len(),
            chunks.deep_view().len() == chunks@.len(),
            out@ == concat_chunks(chunks.deep_view().take(j as int)),
        decreases chunks@.len() - j,
    {
        let chunk = &chunks[j];
        let mut i: usize = 0;
        let ghost before = out@;
        while i < chunk.len()
            invariant
                i <= chunk@.len(),
                out@ == before + chunk@.take(i as int),
            decreases chunk@.len() - i,
        {
            out.push(chunk[i]);
            proof {
                assert(before + chunk@.take(i + 1) =~= (before + chunk@.take(i as int)).push(
                    chunk@[i as int],
                ));
            }
            i = i + 1;
        }
        proof {
            assert(chunk@.take(chunk@.len() as int) =~= chunk@);
            assert(chunks.deep_view()[j as int] == chunk@);
            lemma_concat_take_succ(chunks.deep_view(), j as int);
        }
        j = j + 1;
    }
    proof {
        assert(chunks.deep_view().take(chunks@.len() as int) =~= chunks.deep_view());
    }
    out
}

} // verus!
