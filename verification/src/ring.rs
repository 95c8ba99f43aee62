//! Arithmetic of power-of-two rings, shared by both queue flavours.

use vstd::arithmetic::power2::{lemma2_to64, lemma_pow2_pos, lemma_pow2_strictly_increases, lemma_pow2_unfold, pow2};
use vstd::bits::{lemma_usize_low_bits_mask_is_mod, low_bits_mask};
use vstd::prelude::*;

verus! {

/// Whether `n` is a power of two.
pub open spec fn is_power_of_two(n: usize) -> bool {
    exists|k: nat| k < usize::BITS && #[trigger] pow2(k) == n
}

/// Masking a position with `capacity - 1` gives its offset in the ring.
pub proof fn lemma_mask_is_mod(pos: usize, capacity: usize)
    requires
        is_power_of_two(capacity),
    ensures
        capacity > 0,
        pos & ((capacity - 1) as usize) == pos % capacity,
        pos % capacity < capacity,
{
    let k = choose|k: nat| k < usize::BITS && #[trigger] pow2(k) == capacity;
    lemma_pow2_pos(k);
    lemma_usize_low_bits_mask_is_mod(pos, k);
    assert(low_bits_mask(k) == capacity - 1);
}

/// `2^BITS` is one more than the largest `usize`.
proof fn lemma_pow2_bits()
    ensures
        pow2(usize::BITS as nat) == usize::MAX + 1,
{
    lemma2_to64();
}

/// Returns the smallest power of two that is at least `n`.
pub fn next_power_of_two(n: usize) -> (p: usize)
    requires
        0 < n <= usize::MAX / 4 + 1,
    ensures
        is_power_of_two(p),
        n <= p < 2 * n,
        p <= usize::MAX / 2,
{
    let mut p: usize = 1;
    let ghost mut k: nat = 0;
    proof {
        lemma2_to64();
    }
    while p < n
        invariant
            p == pow2(k),
            k < usize::BITS,
            1 <= p < 2 * n,
            n <= usize::MAX / 4 + 1,
        decreases 2 * n - p,
    {
        proof {
            lemma_pow2_unfold(k + 1);
            lemma_pow2_bits();
            if k + 1 >= usize::BITS {
                lemma_pow2_strictly_increases(k, usize::BITS as nat);
                assert(false);
            }
            k = k + 1;
        }
        p = p * 2;
    }
    assert(pow2(k) == p);
    p
}

/// Two chunks that are live together never share a cell: the chunk of
/// `n1` bytes written at position `p1`, and the chunk of `n2` bytes written
/// at `p2` after it, while no more than `capacity` bytes span from the start
/// of the first to the end of the second. Each chunk occupies the cells from
/// its position modulo `capacity` on, and stays within `2 * capacity` cells.
pub proof fn lemma_live_chunks_disjoint(capacity: nat, p1: nat, n1: nat, p2: nat, n2: nat)
    requires
        capacity > 0,
        p1 + n1 <= p2,
        p2 + n2 <= p1 + capacity,
    ensures
        p1 % capacity + n1 <= p2 % capacity || p2 % capacity + n2 <= p1 % capacity,
        p1 % capacity + n1 <= 2 * capacity,
        p2 % capacity + n2 <= 2 * capacity,
{
    let a = p1 % capacity;
    let q = p1 / capacity;
    vstd::arithmetic::div_mod::lemma_fundamental_div_mod(p1 as int, capacity as int);
    assert(a < capacity);
    let d = p2 - p1;
    if a + d < capacity {
        assert(p2 == capacity * q + (a + d)) by (nonlinear_arith)
            requires
                p1 == capacity * q + a,
                d == p2 - p1,
        ;
        vstd::arithmetic::div_mod::lemma_mod_multiples_vanish(q as int, (a + d) as int, capacity as int);
        vstd::arithmetic::div_mod::lemma_small_mod((a + d) as nat, capacity);
    } else {
        assert(p2 == capacity * (q + 1) + (a + d - capacity)) by (nonlinear_arith)
            requires
                p1 == capacity * q + a,
                d == p2 - p1,
        ;
        vstd::arithmetic::div_mod::lemma_mod_multiples_vanish(
            (q + 1) as int,
            (a + d - capacity) as int,
            capacity as int,
        );
        vstd::arithmetic::div_mod::lemma_small_mod((a + d - capacity) as nat, capacity);
    }
    vstd::arithmetic::div_mod::lemma_fundamental_div_mod(p2 as int, capacity as int);
}

/// The cells of a doubled ring of `capacity` after `data` is written at
/// position `pos`: from the cell `pos % capacity` on, one byte per cell.
pub open spec fn put(cells: Seq<u8>, capacity: nat, pos: nat, data: Seq<u8>) -> Seq<u8> {
    let start = pos % capacity;
    Seq::new(
        cells.len(),
        |k: int|
            if start <= k < start + data.len() {
                data[k - start]
            } else {
                cells[k]
            },
    )
}

/// The `len` bytes a read at position `pos` of a doubled ring of
/// `capacity` sees.
pub open spec fn get(cells: Seq<u8>, capacity: nat, pos: nat, len: nat) -> Seq<u8> {
    cells.subrange((pos % capacity) as int, (pos % capacity + len) as int)
}

/// The cells after the chunks `writes` (each a position and its bytes) are
/// written, in order.
pub open spec fn put_all(cells: Seq<u8>, capacity: nat, writes: Seq<(nat, Seq<u8>)>) -> Seq<u8>
    decreases writes.len(),
{
    if writes.len() == 0 {
        cells
    } else {
        put(put_all(cells, capacity, writes.drop_last()), capacity, writes.last().0, writes.last().1)
    }
}

/// Writing chunks keeps the number of cells.
proof fn lemma_put_all_len(cells: Seq<u8>, capacity: nat, writes: Seq<(nat, Seq<u8>)>)
    ensures
        put_all(cells, capacity, writes).len() == cells.len(),
    decreases writes.len(),
{
    if writes.len() > 0 {
        lemma_put_all_len(cells, capacity, writes.drop_last());
    }
}

/// A chunk reads back as it was written, whatever chunks are written after
/// it while it is live: each of those starts at or after its end, and ends
/// no more than `capacity` bytes after its start.
pub proof fn lemma_read_back_after_later_writes(
    cells: Seq<u8>,
    capacity: nat,
    pos: nat,
    data: Seq<u8>,
    writes: Seq<(nat, Seq<u8>)>,
)
    requires
        capacity > 0,
        cells.len() == 2 * capacity,
        data.len() <= capacity,
        forall|i: int|
            0 <= i < writes.len() ==> pos + data.len() <= (#[trigger] writes[i]).0 && writes[i].0
                + writes[i].1.len() <= pos + capacity,
    ensures
        get(put_all(put(cells, capacity, pos, data), capacity, writes), capacity, pos, data.len())
            == data,
    decreases writes.len(),
{
    let start = pos % capacity;
    lemma_live_chunks_disjoint(capacity, pos, data.len(), pos + data.len(), 0);
    if writes.len() == 0 {
        assert(get(put(cells, capacity, pos, data), capacity, pos, data.len()) =~= data);
    } else {
        let rest = writes.drop_last();
        assert forall|i: int| 0 <= i < rest.len() implies pos + data.len() <= (#[trigger] rest[i]).0
            && rest[i].0 + rest[i].1.len() <= pos + capacity by {
            assert(rest[i] == writes[i]);
        }
        lemma_read_back_after_later_writes(cells, capacity, pos, data, rest);
        let before = put_all(put(cells, capacity, pos, data), capacity, rest);
        let (p2, d2) = writes.last();
        assert(pos + data.len() <= p2 && p2 + d2.len() <= pos + capacity) by {
            assert(writes.last() == writes[writes.len() - 1]);
        }
        lemma_live_chunks_disjoint(capacity, pos, data.len(), p2, d2.len());
        let after = put(before, capacity, p2, d2);
        lemma_put_all_len(put(cells, capacity, pos, data), capacity, rest);
        assert(before.len() == 2 * capacity);
        assert(after.len() == 2 * capacity);
        assert forall|k: int| 0 <= k < data.len() implies #[trigger] get(after, capacity, pos, data.len())[k]
            == get(before, capacity, pos, data.len())[k] by {
            assert(after[start + k] == before[start + k]);
        }
        assert(get(after, capacity, pos, data.len()) =~= get(before, capacity, pos, data.len()));
    }
}

} // verus!
