//! The chunk dispatcher: the input is cut into contiguous chunks, the output
//! into the chunks of twice the length that belong to them, and each pair is
//! handed to a worker that fills its own output chunk and nothing else.
use vstd::prelude::*;
use rayon::iter::{IndexedParallelIterator, ParallelIterator};
use rayon::slice::{ParallelSlice, ParallelSliceMut};
use crate::model::{doubled, doubled_at};
use crate::opt::double_array_sisd_opt_into;
use crate::pack::zeroed_doubled;
use crate::vector::double_array_lookup_neon_u4_slice;

verus! {

#[verifier::external_type_specification]
#[verifier::external_body]
pub struct ExThreadPool(rayon::ThreadPool);

/// The length of each chunk when `len` items are cut into `n` chunks: `len / n`
/// rounded up, so that only the last chunks can be shorter.
pub open spec fn chunk_len(len: int, n: int) -> int {
    (len + n - 1) / n
}

/// Where chunk `i` of `len` items cut into chunks of `c` starts (the end of
/// the sequence for a chunk past it).
pub open spec fn chunk_start(len: int, c: int, i: int) -> int {
    if i * c < len {
        i * c
    } else {
        len
    }
}

/// Chunk `j` of the doubled output of `s`, cut into chunks of `2 * c`, is the
/// doubling of chunk `j` of `s` cut into chunks of `c`.
pub open spec fn chunks_doubled(s: Seq<u8>, out: Seq<u8>, c: int) -> bool {
    forall|j: int|
        0 <= j && j * c < s.len() ==> #[trigger] out.subrange(
            2 * chunk_start(s.len() as int, c, j),
            2 * chunk_start(s.len() as int, c, j + 1),
        ) == doubled(
            s.subrange(chunk_start(s.len() as int, c, j), chunk_start(s.len() as int, c, j + 1)),
        )
}

/// `s` cut into `n` chunks, as [`split_into_chunks`] cuts it.
pub open spec fn chunks_of<A>(s: Seq<A>, n: int) -> Seq<Seq<A>> {
    let c = chunk_len(s.len() as int, n);
    Seq::new(
        n as nat,
        |i: int| s.subrange(chunk_start(s.len() as int, c, i), chunk_start(s.len() as int, c, i + 1)),
    )
}

proof fn lemma_chunk_start_monotone(len: int, c: int, i: int)
    requires
        len >= 0,
        c >= 0,
        i >= 0,
    ensures
        0 <= chunk_start(len, c, i) <= chunk_start(len, c, i + 1) <= len,
{
    assert(i * c <= (i + 1) * c) by (nonlinear_arith)
        requires
            c >= 0,
            i >= 0,
    ;
    assert(i * c >= 0) by (nonlinear_arith)
        requires
            c >= 0,
            i >= 0,
    ;
}

/// The first `k` chunks of `s`, joined, are the prefix of `s` up to the start of chunk `k`.
proof fn lemma_chunks_prefix<A>(s: Seq<A>, n: int, k: int)
    requires
        n >= 1,
        0 <= k <= n,
    ensures
        chunks_of(s, n).subrange(0, k).flatten() == s.subrange(
            0,
            chunk_start(s.len() as int, chunk_len(s.len() as int, n), k),
        ),
    decreases k,
{
    let len = s.len() as int;
    let c = chunk_len(len, n);
    assert(c >= 0) by (nonlinear_arith)
        requires
            c == (len + n - 1) / n,
            n >= 1,
            len >= 0,
    ;
    let parts = chunks_of(s, n);
    if k == 0 {
        assert(parts.subrange(0, 0) =~= Seq::<Seq<A>>::empty());
        assert(s.subrange(0, chunk_start(len, c, 0)) =~= Seq::<A>::empty());
    } else {
        lemma_chunks_prefix(s, n, k - 1);
        lemma_chunk_start_monotone(len, c, k - 1);
        assert(parts.subrange(0, k) =~= parts.subrange(0, k - 1).push(parts[k - 1]));
        parts.subrange(0, k - 1).lemma_flatten_push(parts[k - 1]);
        assert(s.subrange(0, chunk_start(len, c, k)) =~= s.subrange(0, chunk_start(len, c, k - 1))
            + s.subrange(chunk_start(len, c, k - 1), chunk_start(len, c, k)));
    }
}

/// Cutting `s` into any number `n >= 1` of chunks loses and repeats nothing,
/// and doubling the chunks one by one, then joining the results, gives the
/// doubling of `s`.
pub proof fn lemma_split_doubled(s: Seq<u8>, n: int)
    requires
        n >= 1,
    ensures
        chunks_of(s, n).flatten() == s,
        chunks_of(s, n).map_values(|p: Seq<u8>| doubled(p)).flatten() == doubled(s),
{
    let len = s.len() as int;
    let c = chunk_len(len, n);
    lemma_chunks_prefix(s, n, n);
    vstd::arithmetic::div_mod::lemma_fundamental_div_mod(len + n - 1, n);
    assert(n * c >= len) by (nonlinear_arith)
        requires
            c == (len + n - 1) / n,
            len + n - 1 == n * ((len + n - 1) / n) + (len + n - 1) % n,
            (len + n - 1) % n < n,
    ;
    assert(chunk_start(len, c, n) == len);
    assert(chunks_of(s, n).subrange(0, n) =~= chunks_of(s, n));
    assert(s.subrange(0, len) =~= s);
    crate::model::lemma_doubled_partition(chunks_of(s, n));
}

/// Computes `len / n` rounded up without overflow.
fn ceil_div(len: usize, n: usize) -> (r: usize)
    requires
        n >= 1,
    ensures
        r == chunk_len(len as int, n as int),
        r <= len,
        len > 0 ==> r > 0,
{
    let q = len / n;
    proof {
        vstd::arithmetic::div_mod::lemma_fundamental_div_mod(len as int, n as int);
        assert(q <= len && (len % n != 0 ==> q + 1 <= len) && (len > 0 && len % n == 0 ==> q > 0))
            by (nonlinear_arith)
            requires
                n >= 1,
                len == n * q + len % n,
                0 <= len % n < n,
                q >= 0,
        ;
    }
    let r: usize = if len % n != 0 {
        q + 1
    } else {
        q
    };
    proof {
        vstd::arithmetic::div_mod::lemma_fundamental_div_mod((len + n - 1) as int, n as int);
        assert((len + n - 1) / (n as int) == r) by (nonlinear_arith)
            requires
                n >= 1,
                len == n * q + len % n,
                0 <= len % n < n,
                r == if len % n != 0 {
                    q + 1
                } else {
                    q as int
                },
                (len + n - 1) == n * ((len + n - 1) / (n as int)) + (len + n - 1) % (n as int),
                0 <= (len + n - 1) % (n as int) < n,
        ;
    }
    r
}

/// Splits `slice` into `n` contiguous chunks of `len / n` items rounded up;
/// the last non-empty chunk may be shorter, and chunks past the end are empty.
pub fn split_into_chunks<T>(slice: &[T], n: usize) -> (chunks: Vec<&[T]>)
    requires
        n >= 1,
    ensures
        chunks@.len() == n,
        forall|i: int|
            0 <= i < n ==> (#[trigger] chunks@[i])@ == slice@.subrange(
                chunk_start(slice@.len() as int, chunk_len(slice@.len() as int, n as int), i),
                chunk_start(slice@.len() as int, chunk_len(slice@.len() as int, n as int), i + 1),
            ),
{
    let len = slice.len();
    let chunk_size = ceil_div(len, n);
    let ghost c = chunk_size as int;
    let mut chunks: Vec<&[T]> = Vec::new();
    let mut start: usize = 0;
    let mut i: usize = 0;
    while i < n
        invariant
            len == slice@.len(),
            c == chunk_size,
            c == chunk_len(len as int, n as int),
            i <= n,
            start == chunk_start(len as int, c, i as int),
            chunks@.len() == i,
            forall|k: int|
                0 <= k < i ==> (#[trigger] chunks@[k])@ == slice@.subrange(
                    chunk_start(len as int, c, k),
                    chunk_start(len as int, c, k + 1),
                ),
        decreases n - i,
    {
        let end: usize = if len - start <= chunk_size {
            len
        } else {
            start + chunk_size
        };
        proof {
            assert((i + 1) * c == i * c + c) by (nonlinear_arith);
            assert(c >= 0) by (nonlinear_arith)
                requires
                    c == (len + n - 1) / (n as int),
                    n >= 1,
                    len >= 0,
            ;
            if i * c >= len {
                assert((i + 1) * c >= len);
            }
        }
        chunks.push(slice_range(slice, start, end));
        start = end;
        i = i + 1;
    }
    chunks
}

/// `slice[start..end]`.
fn slice_range<T>(slice: &[T], start: usize, end: usize) -> (r: &[T])
    requires
        start <= end <= slice@.len(),
    ensures
        r@ == slice@.subrange(start as int, end as int),
{
    &slice[start..end]
}

/// If every output chunk holds the doubling of its input chunk, the output
/// is the doubling of the input.
proof fn lemma_chunks_cover(s: Seq<u8>, out: Seq<u8>, c: int)
    requires
        c > 0,
        out.len() == 2 * s.len(),
        chunks_doubled(s, out, c),
    ensures
        out == doubled(s),
{
    let len = s.len() as int;
    assert forall|k: int| 0 <= k < out.len() implies #[trigger] out[k] == doubled(s)[k] by {
        let j = k / (2 * c);
        vstd::arithmetic::div_mod::lemma_fundamental_div_mod(k, 2 * c);
        assert(0 <= k % (2 * c) < 2 * c);
        assert(k == 2 * c * j + k % (2 * c));
        assert(j >= 0) by (nonlinear_arith)
            requires
                k >= 0,
                c > 0,
                j == k / (2 * c),
        ;
        assert(2 * (j * c) <= k) by (nonlinear_arith)
            requires
                k == 2 * c * j + k % (2 * c),
                0 <= k % (2 * c),
        ;
        assert(k < 2 * ((j + 1) * c)) by (nonlinear_arith)
            requires
                k == 2 * c * j + k % (2 * c),
                k % (2 * c) < 2 * c,
        ;
        assert(j * c < len);
        let lo = chunk_start(len, c, j);
        let hi = chunk_start(len, c, j + 1);
        assert(lo == j * c);
        assert(out.subrange(2 * lo, 2 * hi) == doubled(s.subrange(lo, hi)));
        let m = k - 2 * lo;
        assert(0 <= m < 2 * (hi - lo));
        assert(out.subrange(2 * lo, 2 * hi)[m] == out[k]);
        assert(doubled(s.subrange(lo, hi))[m] == doubled_at(s.subrange(lo, hi), m));
        assert((2 * lo + m) / 2 == lo + m / 2);
        assert((2 * lo + m) % 2 == m % 2);
        assert(s.subrange(lo, hi)[m / 2] == s[lo + m / 2]);
    }
    assert(out =~= doubled(s));
}

/// Relies on rayon: `ThreadPool::install` runs the closure inside `pool` and
/// returns once it is done; `par_chunks_mut(out_chunk)` and `par_chunks(chunk)`
/// cut the output and the input into non-overlapping chunks of those sizes in
/// order (only the last may be shorter); `zip` pairs the `j`-th chunks; and
/// `for_each` hands each pair once to the table-lookup register kernel, which
/// fills the output chunk with the doubling of the input chunk.
#[verifier::external_body]
fn run_chunks_in_pool(
    pool: &rayon::ThreadPool,
    array: &[u8],
    out: &mut [u8],
    chunk: usize,
    out_chunk: usize,
)
    requires
        0 < chunk <= array@.len(),
        out_chunk == 2 * chunk,
        old(out)@.len() == 2 * array@.len(),
    ensures
        final(out)@.len() == old(out)@.len(),
        chunks_doubled(array@, final(out)@, chunk as int),
{
    pool.install(
        || {
            out.par_chunks_mut(out_chunk).zip(array.par_chunks(chunk)).for_each(
                |(o, i)| double_array_lookup_neon_u4_slice(i, o),
            )
        },
    )
}

/// Relies on rayon as `run_chunks_in_pool` does, on the global pool, with the
/// word-parallel mask-and-shift kernel filling each output chunk.
#[verifier::external_body]
fn run_chunks_global(array: &[u8], out: &mut [u8], chunk: usize, out_chunk: usize)
    requires
        0 < chunk <= array@.len(),
        out_chunk == 2 * chunk,
        old(out)@.len() == 2 * array@.len(),
    ensures
        final(out)@.len() == old(out)@.len(),
        chunks_doubled(array@, final(out)@, chunk as int),
{
    out.par_chunks_mut(out_chunk).zip(array.par_chunks(chunk)).for_each(
        |(o, i)| double_array_sisd_opt_into(i, o),
    )
}

/// Doubles every bit of `array` on the workers of `pool`: the input is cut
/// into `n_chunks` chunks (see [`split_into_chunks`]), each doubled by the
/// table-lookup register kernel into its own part of one output buffer.
pub fn expand_parallel(array: &[u8], pool: &rayon::ThreadPool, n_chunks: usize) -> (r: Vec<u8>)
    requires
        n_chunks >= 1,
    ensures
        r@ == doubled(array@),
        r@.len() == 2 * array@.len(),
{
    let n = array.len();
    let mut doubled_array: Vec<u8> = zeroed_doubled(n);
    let out_len = doubled_array.len();
    if n > 0 {
        let chunk = ceil_div(n, n_chunks);
        run_chunks_in_pool(pool, array, doubled_array.as_mut_slice(), chunk, 2 * chunk);
        proof {
            lemma_chunks_cover(array@, doubled_array@, chunk as int);
        }
    } else {
        assert(doubled_array@ =~= doubled(array@));
    }
    doubled_array
}

/// Doubles every bit of `array` in eight chunks on the workers of `thread_pool`.
pub fn double_array_lookup_neon_u4_multithread(array: &[u8], thread_pool: &rayon::ThreadPool) -> (r:
    Vec<u8>)
    ensures
        r@ == doubled(array@),
        r@.len() == 2 * array@.len(),
{
    expand_parallel(array, thread_pool, 8)
}

/// Doubles every bit of `array` in eight chunks on rayon's global pool, each
/// with the word-parallel mask-and-shift kernel.
pub fn double_array_sisd_opt_rayon(array: &[u8]) -> (r: Vec<u8>)
    ensures
        r@ == doubled(array@),
        r@.len() == 2 * array@.len(),
{
    let num_chunks: usize = 8;
    let n = array.len();
    let mut doubled_array: Vec<u8> = zeroed_doubled(n);
    let out_len = doubled_array.len();
    if n > 0 {
        let chunk = ceil_div(n, num_chunks);
        run_chunks_global(array, doubled_array.as_mut_slice(), chunk, 2 * chunk);
        proof {
            lemma_chunks_cover(array@, doubled_array@, chunk as int);
        }
    } else {
        assert(doubled_array@ =~= doubled(array@));
    }
    doubled_array
}

} // verus!
