use gemma4_fixture::tables::{kv_cache_slot, rope_table_bytes};

#[test]
fn only_the_position_row_is_filled() {
    let row = [1u8, 2, 3, 4];
    let table = rope_table_bytes(4, 2, 2, &row);
    assert_eq!(table.len(), 16);
    assert_eq!(table, vec![0, 0, 0, 0, 0, 0, 0, 0, 1, 2, 3, 4, 0, 0, 0, 0]);
}

#[test]
fn row_at_position_zero() {
    let table = rope_table_bytes(2, 1, 0, &[7, 8]);
    assert_eq!(table, vec![7, 8, 0, 0]);
}

#[test]
fn kv_slot_wraps_around_the_ring() {
    assert_eq!(kv_cache_slot(5, 4, 8), (1, 16));
    assert_eq!(kv_cache_slot(3, 4, 8), (3, 48));
    assert_eq!(kv_cache_slot(1763, 512, 4096), (1763 % 512, (1763 % 512) * 4096 * 2));
}
