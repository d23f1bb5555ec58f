//! Host-side layout of the position-indexed tables: the RoPE tables, all zero but the row of
//! the current position, which holds that position's cos (or sin) values as bf16 bytes, and
//! the ring of KV-cache rows a position writes into.

use vstd::prelude::*;

verus! {

/// The byte at `j` of a table of `len` bytes that is zero except for `row` at byte `offset`.
pub open spec fn parked_byte(row: Seq<u8>, offset: int, j: int) -> u8 {
    if offset <= j < offset + row.len() {
        row[j - offset]
    } else {
        0
    }
}

/// A `rows` x `row_elements` bf16 table, zero everywhere except row `pos`, whose leading
/// bytes are `row`.
pub fn rope_table_bytes(rows: usize, row_elements: usize, pos: usize, row: &[u8]) -> (table: Vec<u8>)
    requires
        rows * row_elements * 2 <= usize::MAX,
        pos * row_elements * 2 + row@.len() <= rows * row_elements * 2,
    ensures
        table@.len() == rows * row_elements * 2,
        forall|j: int|
            0 <= j < table@.len() ==> #[trigger] table@[j] == parked_byte(
                row@,
                pos * row_elements * 2,
                j,
            ),
{
    let len = rows * row_elements * 2;
    let offset = pos * row_elements * 2;
    let mut table: Vec<u8> = Vec::new();
    let mut j: usize = 0;
    while j < len
        invariant
            j <= len,
            len == rows * row_elements * 2,
            offset == pos * row_elements * 2,
            offset + row@.len() <= len,
            table@.len() == j,
            forall|k: int| 0 <= k < j ==> #[trigger] table@[k] == parked_byte(row@, offset as int, k),
        decreases len - j,
    {
        let byte = if offset <= j && j < offset + row.len() {
            row[j - offset]
        } else {
            0
        };
        table.push(byte);
        j += 1;
    }
    table
}

/// The KV-cache slot that position `pos` writes, the cache being a ring of `slots` rows of
/// `row_elements` bf16 values, and the byte offset of that row; the row lies inside the cache.
pub fn kv_cache_slot(pos: usize, slots: usize, row_elements: usize) -> (r: (usize, usize))
    requires
        slots > 0,
        slots * row_elements * 2 <= usize::MAX,
    ensures
        r.0 == pos % slots,
        r.1 == r.0 * row_elements * 2,
        r.1 + row_elements * 2 <= slots * row_elements * 2,
{
    let slot = pos % slots;
    proof {
        assert(slot * (row_elements * 2) + row_elements * 2 <= slots * (row_elements * 2))
            by (nonlinear_arith)
            requires
                slot + 1 <= slots,
        ;
        assert(slot * row_elements * 2 == slot * (row_elements * 2)) by (nonlinear_arith);
        assert(slots * row_elements * 2 == slots * (row_elements * 2)) by (nonlinear_arith);
    }
    (slot, slot * row_elements * 2)
}

} // verus!
