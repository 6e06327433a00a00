//! Planning and joining for the bounded worker pool. The pool partitions the
//! repository list into contiguous chunks of size `ceil(len / workers)`, one
//! worker walks one chunk strictly in order, and the per-worker outcome lists
//! are joined back in chunk order — never in completion order — so the joined
//! list lines up index by index with the input.

use vstd::prelude::*;

use vstd::arithmetic::div_mod::{
    lemma_fundamental_div_mod, lemma_fundamental_div_mod_converse, lemma_basic_div,
};
use vstd::arithmetic::mul::lemma_mul_inequality;

verus! {

/// `x / d` rounded towards positive infinity.
pub open spec fn ceil_div(x: int, d: int) -> int {
    (x + d - 1) / d
}

/// `q == ceil_div(x, d)` exactly when `q * d` reaches `x` but `(q - 1) * d`
/// does not.
proof fn lemma_ceil_div_eq(x: int, d: int, q: int)
    requires
        d > 0,
        0 <= x,
        q * d >= x,
        (q - 1) * d < x,
    ensures
        q == ceil_div(x, d),
{
    assert((q - 1) * d == q * d - d) by (nonlinear_arith);
    lemma_fundamental_div_mod_converse(x + d - 1, d, q, x + d - 1 - q * d);
}

/// The bounds that make `ceil_div` a ceiling: `ceil_div(x, d) * d` covers
/// `x`, and one multiple less does not.
proof fn lemma_ceil_div_bounds(x: int, d: int)
    requires
        d > 0,
        0 <= x,
    ensures
        ceil_div(x, d) * d >= x,
        (ceil_div(x, d) - 1) * d < x,
        x == 0 ==> ceil_div(x, d) == 0,
        x > 0 ==> ceil_div(x, d) >= 1,
        ceil_div(x, d) >= 0,
{
    let c = ceil_div(x, d);
    lemma_fundamental_div_mod(x + d - 1, d);
    assert(c * d == d * c) by (nonlinear_arith);
    assert((c - 1) * d == c * d - d) by (nonlinear_arith);
    if x == 0 {
        lemma_basic_div(d - 1, d);
    }
    if x > 0 {
        assert(c >= 1) by (nonlinear_arith)
            requires
                c * d >= x,
                x > 0,
                d > 0,
        ;
    }
}

/// Size of one worker's chunk: the length divided by the worker count,
/// rounded up so that `workers` chunks always cover the whole list.
pub fn chunk_size(len: usize, workers: usize) -> (size: usize)
    requires
        workers > 0,
    ensures
        size == ceil_div(len as int, workers as int),
        len > 0 ==> size > 0,
        size <= len,
    {
    if len == 0 {
        proof {
            lemma_ceil_div_bounds(0, workers as int);
        }
        0
    } else {
        let rest = (len - 1) / workers;
        proof {
            lemma_fundamental_div_mod(len as int - 1, workers as int);
            assert((rest as int + 1) * workers as int == workers as int * rest as int
                + workers as int) by (nonlinear_arith);
            assert((rest as int) * workers as int == workers as int * rest as int)
                by (nonlinear_arith);
            lemma_ceil_div_eq(len as int, workers as int, rest as int + 1);
            if 1 + rest as int > len as int {
                lemma_mul_inequality(len as int, rest as int, workers as int);
            }
        }
        1 + rest
    }
}

/// The chunk plan: contiguous, in order, covering the whole list, each chunk
/// of `chunk_size` elements except the last, and never more chunks than
/// workers.
pub fn plan_chunks(len: usize, workers: usize) -> (plan: Vec<(usize, usize)>)
    requires
        workers > 0,
    ensures
        ({
            let size = ceil_div(len as int, workers as int);
            &&& plan@.len() == if len == 0 {
                0int
            } else {
                ceil_div(len as int, size)
            }
            &&& plan@.len() <= workers
            &&& forall|j: int|
                0 <= j < plan@.len() ==> (#[trigger] plan@[j]).0 == j * size && plan@[j].1
                    == vstd::math::min(j * size + size, len as int)
            &&& forall|j: int|
                0 <= j < plan@.len() ==> (#[trigger] plan@[j]).1 - plan@[j].0
                    == vstd::math::min(size, len - j * size)
        }),
    {
    let size = chunk_size(len, workers);
    let mut plan: Vec<(usize, usize)> = Vec::new();
    if len == 0 {
        return plan;
    }
    let mut start: usize = 0;
    while start < len
        invariant
            workers > 0,
            0 < size <= len,
            size == ceil_div(len as int, workers as int),
            start == vstd::math::min(plan@.len() * size, len as int),
            plan@.len() > 0 ==> (plan@.len() - 1) * size < len,
            forall|j: int|
                0 <= j < plan@.len() ==> (#[trigger] plan@[j]).0 == j * size && plan@[j].1
                    == vstd::math::min(j * size + size, len as int),
        decreases len - start,
    {
        let ghost k = plan@.len() as int;
        proof {
            assert((k + 1) * size == k * size + size) by (nonlinear_arith);
        }
        let remaining = len - start;
        let end = if remaining > size {
            start + size
        } else {
            len
        };
        plan.push((start, end));
        start = end;
    }
    proof {
        let k = plan@.len() as int;
        let size = size as int;
        // the loop pushed at least one chunk, covered the list, and the
        // chunk before the last one ended short of the list's end
        lemma_ceil_div_eq(len as int, size, k);
        // no more chunks than workers: len fits into workers * size
        lemma_ceil_div_bounds(len as int, workers as int);
        if k > workers {
            lemma_mul_inequality(workers as int, k - 1, size);
        }
    }
    plan
}

/// The elements of all the chunks, in chunk order.
pub open spec fn concat_all<T>(parts: Seq<Seq<T>>) -> Seq<T>
    decreases parts.len(),
{
    if parts.len() == 0 {
        Seq::empty()
    } else {
        concat_all(parts.drop_last()) + parts.last()
    }
}

/// Join the per-worker outcome lists back into one list, in chunk order.
/// Workers may have finished in any order; the join looks only at each
/// chunk's position in the plan.
pub fn join_chunks<T>(parts: Vec<Vec<T>>) -> (joined: Vec<T>)
    ensures
        joined@ == concat_all(parts@.map_values(|p: Vec<T>| p@)),
    {
    let ghost all_parts = parts@.map_values(|p: Vec<T>| p@);
    let mut parts = parts;
    let mut joined: Vec<T> = Vec::new();
    let mut k: usize = 0;
    let n = parts.len();
    while k < n
        invariant
            n == all_parts.len(),
            k <= n,
            parts@.map_values(|p: Vec<T>| p@) == all_parts.skip(k as int),
            joined@ == concat_all(all_parts.take(k as int)),
        decreases n - k,
    {
        let ghost prev = parts@;
        proof {
            assert(prev.map_values(|p: Vec<T>| p@).len() == prev.len());
        }
        let mut part = parts.remove(0);
        proof {
            assert(part@ == prev.map_values(|p: Vec<T>| p@)[0]);
            assert forall|i: int| 0 <= i < parts@.len() implies parts@.map_values(
                |p: Vec<T>| p@,
            )[i] == #[trigger] all_parts.skip(k as int + 1)[i] by {
                assert(parts@[i] == prev[i + 1]);
                assert(prev.map_values(|p: Vec<T>| p@)[i + 1] == prev[i + 1]@);
            }
            assert(parts@.map_values(|p: Vec<T>| p@) =~= all_parts.skip(k as int + 1));
            assert(all_parts.take(k as int + 1).drop_last() =~= all_parts.take(k as int));
            assert(all_parts.take(k as int + 1).last() == all_parts[k as int]);
        }
        joined.append(&mut part);
        k = k + 1;
    }
    proof {
        assert(all_parts.take(n as int) =~= all_parts);
    }
    joined
}

/// Law of the bounded pool: when chunk `j` holds the outcomes for the inputs
/// `j * size .. j * size + size` (the last chunk stopping at `len`), joining
/// the chunks in chunk order puts the outcome of input `i` at position `i` of
/// the joined list — the order in which the workers finished plays no part.
pub proof fn lemma_pool_order<T>(parts: Seq<Seq<T>>, len: int, size: int)
    requires
        size > 0,
        0 <= len,
        parts.len() == ceil_div(len, size),
        forall|j: int|
            0 <= j < parts.len() ==> (#[trigger] parts[j]).len() == vstd::math::min(
                size,
                len - j * size,
            ),
    ensures
        concat_all(parts).len() == len,
        forall|i: int|
            0 <= i < len ==> #[trigger] concat_all(parts)[i] == parts[i / size][i % size],
    decreases parts.len(),
{
    lemma_ceil_div_bounds(len, size);
    if parts.len() == 0 {
        // a positive length would have demanded at least one chunk
    } else {
        let k = parts.len() as int;
        let tail_start = (k - 1) * size;
        assert(k * size >= len);
        assert(tail_start < len);
        assert(k * size == (k - 1) * size + size) by (nonlinear_arith);
        if k == 1 {
            lemma_ceil_div_bounds(0, size);
        } else {
            assert((k - 2) * size == (k - 1) * size - size) by (nonlinear_arith);
            lemma_ceil_div_eq(tail_start, size, k - 1);
        }
        assert forall|j: int|
            0 <= j < k - 1 implies (#[trigger] parts.drop_last()[j]).len() == vstd::math::min(
            size,
            tail_start - j * size,
        ) by {
            lemma_mul_inequality(j + 1, k - 1, size);
            assert((j + 1) * size == j * size + size) by (nonlinear_arith);
        }
        lemma_pool_order(parts.drop_last(), tail_start, size);
        assert(parts.last().len() == len - tail_start);
        assert forall|i: int| 0 <= i < len implies #[trigger] concat_all(parts)[i] == parts[i
            / size][i % size] by {
            if i < tail_start {
                lemma_fundamental_div_mod(i, size);
                if i / size >= k - 1 {
                    lemma_mul_inequality(k - 1, i / size, size);
                    assert((i / size) * size == size * (i / size)) by (nonlinear_arith);
                }
                assert(concat_all(parts)[i] == concat_all(parts.drop_last())[i]);
            } else {
                lemma_fundamental_div_mod_converse(i, size, k - 1, i - tail_start);
            }
        }
    }
}

} // verus!
