//! How a file is divided among the workers of a multi-part download.

use vstd::prelude::*;

verus! {

/// One worker's share of a file: the bytes `start` to `end`, both included.
#[derive(Clone, Copy, Debug, PartialEq, Eq, Structural)]
pub struct ChunkRange {
    pub id: usize,
    pub start: u64,
    pub end: u64,
}

/// The length of every chunk but the last, which also takes the remainder.
pub open spec fn part_size(total: int, workers: int) -> int {
    total / workers
}

pub open spec fn chunk_start(total: int, workers: int, id: int) -> int {
    id * part_size(total, workers)
}

pub open spec fn chunk_end(total: int, workers: int, id: int) -> int {
    if id == workers - 1 {
        total - 1
    } else {
        (id + 1) * part_size(total, workers) - 1
    }
}

/// Whether `byte` lies in chunk `id`.
pub open spec fn in_chunk(total: int, workers: int, id: int, byte: int) -> bool {
    chunk_start(total, workers, id) <= byte <= chunk_end(total, workers, id)
}

/// Chunk `id` of a file of `total` bytes that is divided among `workers`.
pub open spec fn chunk(total: int, workers: int, id: int) -> ChunkRange {
    ChunkRange {
        id: id as usize,
        start: chunk_start(total, workers, id) as u64,
        end: chunk_end(total, workers, id) as u64,
    }
}

/// A file can be divided when each worker gets a byte or more.
pub open spec fn divisible(total: int, workers: int) -> bool {
    0 < workers <= total
}

/// Whether a file of `total_size` bytes can be divided among `num_workers`.
pub fn can_divide(total_size: u64, num_workers: usize) -> (can: bool)
    ensures
        can == divisible(total_size as int, num_workers as int),
{
    0 < num_workers && num_workers as u64 <= total_size
}

/// The chunks that `done` does not mark as finished, of the first `upto`, in
/// order.
pub open spec fn unfinished(total: int, done: Seq<bool>, upto: int) -> Seq<ChunkRange>
    decreases upto,
{
    if upto <= 0 {
        Seq::empty()
    } else if done[upto - 1] {
        unfinished(total, done, upto - 1)
    } else {
        unfinished(total, done, upto - 1).push(chunk(total, done.len() as int, upto - 1))
    }
}

/// The chunks that are still to be fetched.
pub open spec fn pending(total: int, done: Seq<bool>) -> Seq<ChunkRange> {
    unfinished(total, done, done.len() as int)
}

/// How many bytes chunk `id` has.
pub open spec fn chunk_len(total: int, workers: int, id: int) -> int {
    chunk_end(total, workers, id) + 1 - chunk_start(total, workers, id)
}

/// How many bytes the chunks have that `done` marks, of the first `upto`.
pub open spec fn finished_len(total: int, done: Seq<bool>, upto: int) -> int
    decreases upto,
{
    if upto <= 0 {
        0
    } else if done[upto - 1] {
        finished_len(total, done, upto - 1) + chunk_len(total, done.len() as int, upto - 1)
    } else {
        finished_len(total, done, upto - 1)
    }
}

/// How many bytes the chunks have that `done` does not mark, of the first `upto`.
pub open spec fn missing_len(total: int, done: Seq<bool>, upto: int) -> int
    decreases upto,
{
    if upto <= 0 {
        0
    } else if done[upto - 1] {
        missing_len(total, done, upto - 1)
    } else {
        missing_len(total, done, upto - 1) + chunk_len(total, done.len() as int, upto - 1)
    }
}

proof fn lemma_bounds(total: int, workers: int, id: int)
    requires
        divisible(total, workers),
        0 <= id < workers,
    ensures
        part_size(total, workers) >= 1,
        0 <= chunk_start(total, workers, id) <= chunk_end(total, workers, id) < total,
        (id + 1) * part_size(total, workers) == chunk_start(total, workers, id) + part_size(
            total,
            workers,
        ),
        (id + 1) * part_size(total, workers) <= total,
{
    let part = part_size(total, workers);
    vstd::arithmetic::div_mod::lemma_fundamental_div_mod(total, workers);
    assert(part >= 1) by (nonlinear_arith)
        requires
            0 < workers <= total,
            part == total / workers,
    ;
    assert(0 <= id * part && (id + 1) * part == id * part + part && (id + 1) * part <= workers
        * part) by (nonlinear_arith)
        requires
            0 <= id < workers,
            part >= 1,
    ;
}

/// Chunk `id` of the division.
pub fn chunk_range(total_size: u64, num_workers: usize, id: usize) -> (range: ChunkRange)
    requires
        divisible(total_size as int, num_workers as int),
        id < num_workers,
    ensures
        range == chunk(total_size as int, num_workers as int, id as int),
        range.id == id,
        range.start == chunk_start(total_size as int, num_workers as int, id as int),
        range.end == chunk_end(total_size as int, num_workers as int, id as int),
{
    proof {
        lemma_bounds(total_size as int, num_workers as int, id as int);
    }
    let part: u64 = total_size / num_workers as u64;
    let start: u64 = id as u64 * part;
    let end: u64 = if id == num_workers - 1 {
        total_size - 1
    } else {
        (id as u64 + 1) * part - 1
    };
    ChunkRange { id, start, end }
}

/// The chunks that `done` does not mark as finished, in order.
pub fn pending_chunks(total_size: u64, done: &Vec<bool>) -> (ranges: Vec<ChunkRange>)
    requires
        divisible(total_size as int, done@.len() as int),
    ensures
        ranges@ == pending(total_size as int, done@),
{
    let mut ranges: Vec<ChunkRange> = Vec::new();
    let num_workers: usize = done.len();
    let mut id: usize = 0;
    while id < num_workers
        invariant
            id <= num_workers == done@.len(),
            divisible(total_size as int, num_workers as int),
            ranges@ == unfinished(total_size as int, done@, id as int),
        decreases num_workers - id,
    {
        if !done[id] {
            ranges.push(chunk_range(total_size, num_workers, id));
        }
        id += 1;
    }
    ranges
}

// ---------------------------------------------------------------------------
// Laws
// ---------------------------------------------------------------------------

/// A chunk begins and ends within the file, and is not empty.
pub proof fn chunk_bounds(total: int, workers: int, id: int)
    requires
        divisible(total, workers),
        0 <= id < workers,
    ensures
        0 <= chunk_start(total, workers, id) <= chunk_end(total, workers, id) < total,
{
    lemma_bounds(total, workers, id);
}

/// The chunks lie end to end: the first one begins with the file, the last one
/// ends with it, each other one ends right before the next, and none is empty.
pub proof fn chunks_lie_end_to_end(total: int, workers: int)
    requires
        divisible(total, workers),
    ensures
        chunk_start(total, workers, 0) == 0,
        chunk_end(total, workers, workers - 1) == total - 1,
        forall|id: int|
            #![trigger chunk_end(total, workers, id)]
            0 <= id < workers - 1 ==> chunk_end(total, workers, id) + 1 == chunk_start(
                total,
                workers,
                id + 1,
            ),
        forall|id: int|
            0 <= id < workers ==> #[trigger] chunk_start(total, workers, id) <= chunk_end(
                total,
                workers,
                id,
            ),
{
    assert(0 * part_size(total, workers) == 0) by (nonlinear_arith);
    assert forall|id: int| 0 <= id < workers implies #[trigger] chunk_start(total, workers, id)
        <= chunk_end(total, workers, id) by {
        lemma_bounds(total, workers, id);
    }
}

/// Every byte of the file lies in exactly one chunk, and no other byte does.
pub proof fn each_byte_has_one_chunk(total: int, workers: int, byte: int)
    requires
        divisible(total, workers),
    ensures
        0 <= byte < total <==> exists|id: int|
            0 <= id < workers && #[trigger] in_chunk(total, workers, id, byte),
        forall|i: int, j: int|
            0 <= i < workers && 0 <= j < workers && #[trigger] in_chunk(total, workers, i, byte)
                && #[trigger] in_chunk(total, workers, j, byte) ==> i == j,
{
    let part = part_size(total, workers);
    lemma_bounds(total, workers, 0);
    if 0 <= byte < total {
        let q = byte / part;
        vstd::arithmetic::div_mod::lemma_fundamental_div_mod(byte, part);
        assert(q >= 0 && part * q <= byte && byte < part * q + part) by (nonlinear_arith)
            requires
                part >= 1,
                byte >= 0,
                q == byte / part,
                byte == part * q + byte % part,
                0 <= byte % part < part,
        ;
        assert(part * q == q * part) by (nonlinear_arith);
        let id = if q < workers - 1 {
            q
        } else {
            workers - 1
        };
        lemma_bounds(total, workers, id);
        assert(id * part <= q * part) by (nonlinear_arith)
            requires
                id <= q,
                part >= 1,
        ;
        assert(in_chunk(total, workers, id, byte));
    }
    assert forall|id: int|
        0 <= id < workers && #[trigger] in_chunk(total, workers, id, byte) implies 0 <= byte
        < total by {
        lemma_bounds(total, workers, id);
    }
    assert forall|i: int, j: int|
        0 <= i < workers && 0 <= j < workers && #[trigger] in_chunk(total, workers, i, byte)
            && #[trigger] in_chunk(total, workers, j, byte) implies i == j by {
        lemma_bounds(total, workers, i);
        lemma_bounds(total, workers, j);
        if i < j {
            assert((i + 1) * part <= j * part) by (nonlinear_arith)
                requires
                    i + 1 <= j,
                    part >= 1,
            ;
        } else if j < i {
            assert((j + 1) * part <= i * part) by (nonlinear_arith)
                requires
                    j + 1 <= i,
                    part >= 1,
            ;
        }
    }
}

/// The chunks are of one length, but for the last one, which is longer by what
/// the division leaves over.
pub proof fn chunks_share_evenly(total: int, workers: int, id: int)
    requires
        divisible(total, workers),
        0 <= id < workers,
    ensures
        chunk_end(total, workers, id) + 1 - chunk_start(total, workers, id) == if id == workers - 1 {
            total / workers + total % workers
        } else {
            total / workers
        },
{
    lemma_bounds(total, workers, id);
    let part = part_size(total, workers);
    vstd::arithmetic::div_mod::lemma_fundamental_div_mod(total, workers);
    if id == workers - 1 {
        assert((workers - 1) * part + part == workers * part) by (nonlinear_arith);
    }
}

proof fn lemma_unfinished(total: int, done: Seq<bool>, upto: int)
    requires
        0 <= upto <= done.len(),
        done.len() <= usize::MAX,
    ensures
        forall|id: int|
            0 <= id < upto && !done[id] ==> unfinished(total, done, upto).contains(
                #[trigger] chunk(total, done.len() as int, id),
            ),
        forall|k: int|
            0 <= k < unfinished(total, done, upto).len() ==> {
                let c = #[trigger] unfinished(total, done, upto)[k];
                &&& 0 <= c.id < upto
                &&& !done[c.id as int]
                &&& c == chunk(total, done.len() as int, c.id as int)
            },
        forall|j: int, k: int|
            0 <= j < k < unfinished(total, done, upto).len() ==> #[trigger] unfinished(
                total,
                done,
                upto,
            )[j].id < #[trigger] unfinished(total, done, upto)[k].id,
    decreases upto,
{
    if upto > 0 {
        let before = unfinished(total, done, upto - 1);
        let now = unfinished(total, done, upto);
        lemma_unfinished(total, done, upto - 1);
        assert forall|id: int| 0 <= id < upto && !done[id] implies now.contains(
            #[trigger] chunk(total, done.len() as int, id),
        ) by {
            if id < upto - 1 {
                assert(before.contains(chunk(total, done.len() as int, id)));
                let k = choose|k: int|
                    0 <= k < before.len() && before[k] == chunk(total, done.len() as int, id);
                assert(now[k] == before[k]);
            } else {
                assert(now[now.len() - 1] == chunk(total, done.len() as int, id));
            }
        }
    }
}

/// What is fetched after an interruption is exactly what is not yet finished:
/// a chunk is pending if and only if it is not marked, and no chunk is fetched
/// twice.
pub proof fn only_unfinished_chunks_are_pending(total: int, done: Seq<bool>)
    requires
        done.len() <= usize::MAX,
    ensures
        forall|id: int|
            0 <= id < done.len() ==> (!done[id] <==> pending(total, done).contains(
                #[trigger] chunk(total, done.len() as int, id),
            )),
        forall|k: int|
            0 <= k < pending(total, done).len() ==> {
                let c = #[trigger] pending(total, done)[k];
                &&& c.id < done.len()
                &&& !done[c.id as int]
                &&& c == chunk(total, done.len() as int, c.id as int)
            },
        forall|j: int, k: int|
            0 <= j < k < pending(total, done).len() ==> #[trigger] pending(total, done)[j].id
                < #[trigger] pending(total, done)[k].id,
{
    lemma_unfinished(total, done, done.len() as int);
    assert forall|id: int| 0 <= id < done.len() implies (!done[id] <==> pending(
        total,
        done,
    ).contains(#[trigger] chunk(total, done.len() as int, id))) by {
        let c = chunk(total, done.len() as int, id);
        if pending(total, done).contains(c) {
            let k = choose|k: int|
                0 <= k < pending(total, done).len() && pending(total, done)[k] == c;
            assert(pending(total, done)[k].id == id);
        }
    }
}

/// After an interruption, each byte of the file lies in a chunk that is marked
/// as finished or in one that is pending, and not in both.
pub proof fn finished_and_pending_make_the_file(total: int, done: Seq<bool>, byte: int)
    requires
        divisible(total, done.len() as int),
        done.len() <= usize::MAX,
        0 <= byte < total,
    ensures
        exists|id: int|
            {
                &&& 0 <= id < done.len()
                &&& #[trigger] in_chunk(total, done.len() as int, id, byte)
                &&& done[id] != pending(total, done).contains(chunk(total, done.len() as int, id))
            },
{
    each_byte_has_one_chunk(total, done.len() as int, byte);
    only_unfinished_chunks_are_pending(total, done);
    let id = choose|id: int|
        0 <= id < done.len() && #[trigger] in_chunk(total, done.len() as int, id, byte);
    assert(done[id] != pending(total, done).contains(chunk(total, done.len() as int, id)));
}

proof fn lemma_lengths(total: int, done: Seq<bool>, upto: int)
    requires
        divisible(total, done.len() as int),
        0 <= upto <= done.len(),
    ensures
        0 <= finished_len(total, done, upto),
        0 <= missing_len(total, done, upto),
        finished_len(total, done, upto) + missing_len(total, done, upto) == if upto == done.len() {
            total
        } else {
            chunk_start(total, done.len() as int, upto)
        },
    decreases upto,
{
    chunks_lie_end_to_end(total, done.len() as int);
    if upto > 0 {
        lemma_lengths(total, done, upto - 1);
        lemma_bounds(total, done.len() as int, upto - 1);
        assert(chunk_end(total, done.len() as int, upto - 1) + 1 == if upto == done.len() {
            total
        } else {
            chunk_start(total, done.len() as int, upto)
        });
    }
}

/// What is finished and what is missing make up the length of the file.
pub proof fn finished_and_missing_lengths_add_up(total: int, done: Seq<bool>)
    requires
        divisible(total, done.len() as int),
    ensures
        0 <= finished_len(total, done, done.len() as int),
        0 <= missing_len(total, done, done.len() as int),
        finished_len(total, done, done.len() as int) + missing_len(total, done, done.len() as int)
            == total,
{
    lemma_lengths(total, done, done.len() as int);
}

/// A file can be divided if and only if there are workers and an even share of
/// it is a byte or more.
pub proof fn a_share_is_a_byte_or_more(total: int, workers: int)
    ensures
        divisible(total, workers) <==> workers > 0 && total / workers >= 1,
{
    if workers > 0 {
        vstd::arithmetic::div_mod::lemma_fundamental_div_mod(total, workers);
        let share = total / workers;
        assert(workers <= total <==> share >= 1) by (nonlinear_arith)
            requires
                workers > 0,
                total == workers * share + total % workers,
                0 <= total % workers < workers,
        ;
    }
}

/// A chunk bears its number and its bounds, and holds the bytes between them.
pub proof fn a_chunk_bears_its_number_and_bounds(total: int, workers: int, id: int, byte: int)
    requires
        divisible(total, workers),
        total <= u64::MAX,
        workers <= usize::MAX,
        0 <= id < workers,
    ensures
        chunk(total, workers, id).id == id,
        chunk(total, workers, id).start == chunk_start(total, workers, id),
        chunk(total, workers, id).end == chunk_end(total, workers, id),
        in_chunk(total, workers, id, byte) <==> chunk(total, workers, id).start <= byte <= chunk(
            total,
            workers,
            id,
        ).end,
{
    lemma_bounds(total, workers, id);
}

} // verus!
