use tile_storage::map::TilemapSize;
use tile_storage::tiles::storage::{GridOp, TileStorage, TileStorageData, TileStorageMode};
use tile_storage::tiles::{TileEntity, TilePos};

fn pos(x: u32, y: u32) -> TilePos {
    TilePos { x, y }
}

fn ent(id: u64) -> Option<TileEntity> {
    Some(TileEntity { id })
}

#[test]
fn set_then_get_dense() {
    let size = TilemapSize { x: 3, y: 3 };
    let mut s = TileStorage::empty(size, TileStorageMode::DenseVec);
    s.set(&pos(2, 1), ent(7));
    assert_eq!(s.get(&pos(2, 1)), ent(7));
    s.set(&pos(2, 1), None);
    assert_eq!(s.get(&pos(2, 1)), None);
}

#[test]
fn set_then_get_sparse() {
    let size = TilemapSize { x: 3, y: 3 };
    let mut s = TileStorage::empty(size, TileStorageMode::SparseHashMap);
    s.set(&pos(0, 2), ent(11));
    assert_eq!(s.get(&pos(0, 2)), ent(11));
    s.set(&pos(0, 2), None);
    assert_eq!(s.get(&pos(0, 2)), None);
}

#[test]
fn overwrite_existing_sparse_slot() {
    let size = TilemapSize { x: 4, y: 4 };
    let mut s = TileStorage::empty(size, TileStorageMode::SparseHashMap);
    s.set(&pos(1, 1), ent(1));
    s.set(&pos(1, 1), ent(2));
    assert_eq!(s.get(&pos(1, 1)), ent(2));
    assert_eq!(s.iter().len(), 1);
}

#[test]
fn remove_is_idempotent_dense() {
    let size = TilemapSize { x: 2, y: 2 };
    let mut s = TileStorage::empty(size, TileStorageMode::DenseVec);
    s.set(&pos(1, 0), ent(5));
    s.remove(&pos(1, 0));
    let once: Vec<Option<TileEntity>> = s.iter();
    assert_eq!(s.get(&pos(1, 0)), None);
    s.remove(&pos(1, 0));
    assert_eq!(s.get(&pos(1, 0)), None);
    assert_eq!(s.iter(), once);
}

#[test]
fn remove_is_idempotent_sparse() {
    let size = TilemapSize { x: 2, y: 2 };
    let mut s = TileStorage::empty(size, TileStorageMode::SparseHashMap);
    s.set(&pos(1, 1), ent(5));
    s.remove(&pos(1, 1));
    assert_eq!(s.get(&pos(1, 1)), None);
    assert_eq!(s.iter().len(), 0);
    s.remove(&pos(1, 1));
    assert_eq!(s.get(&pos(1, 1)), None);
    assert_eq!(s.iter().len(), 0);
}

#[test]
fn remove_absent_position_is_a_no_op() {
    let size = TilemapSize { x: 2, y: 2 };
    let mut s = TileStorage::empty(size, TileStorageMode::SparseHashMap);
    s.set(&pos(0, 0), ent(3));
    s.remove(&pos(1, 1));
    assert_eq!(s.get(&pos(0, 0)), ent(3));
    assert_eq!(s.iter().len(), 1);
}

#[test]
fn cross_mode_equivalence_over_op_sequence() {
    let size = TilemapSize { x: 3, y: 2 };
    let mut dense = TileStorage::empty(size, TileStorageMode::DenseVec);
    let mut sparse = TileStorage::empty(size, TileStorageMode::SparseHashMap);
    let ops = vec![
        GridOp::SetTile(pos(0, 0), ent(1)),
        GridOp::SetTile(pos(2, 1), ent(2)),
        GridOp::SetTile(pos(1, 0), ent(3)),
        GridOp::RemoveTile(pos(0, 0)),
        GridOp::SetTile(pos(2, 1), ent(4)),
        GridOp::SetTile(pos(1, 1), None),
        GridOp::RemoveTile(pos(2, 0)),
        GridOp::RemoveTile(pos(2, 1)),
    ];
    for op in &ops {
        dense.apply(op);
        sparse.apply(op);
        for x in 0..3 {
            for y in 0..2 {
                assert_eq!(dense.get(&pos(x, y)), sparse.get(&pos(x, y)));
            }
        }
    }
}

#[test]
fn iteration_coverage_dense() {
    let size = TilemapSize { x: 3, y: 4 };
    let mut s = TileStorage::empty(size, TileStorageMode::DenseVec);
    assert_eq!(s.iter().len(), 12);
    s.set(&pos(2, 3), ent(9));
    s.remove(&pos(0, 0));
    assert_eq!(s.iter().len(), 12);
}

#[test]
fn iteration_coverage_sparse() {
    let size = TilemapSize { x: 3, y: 4 };
    let mut s = TileStorage::empty(size, TileStorageMode::SparseHashMap);
    assert_eq!(s.iter().len(), 0);
    s.set(&pos(0, 0), ent(1));
    s.set(&pos(1, 1), ent(2));
    s.set(&pos(2, 2), ent(3));
    assert_eq!(s.iter().len(), 3);
    s.set(&pos(1, 1), ent(4));
    assert_eq!(s.iter().len(), 3);
    s.remove(&pos(0, 0));
    assert_eq!(s.iter().len(), 2);
    s.set(&pos(2, 3), None);
    assert_eq!(s.iter().len(), 2);
}

#[test]
fn sparse_scenario_with_swap_remove() {
    let size = TilemapSize { x: 4, y: 4 };
    let mut s = TileStorage::empty(size, TileStorageMode::SparseHashMap);
    s.set(&pos(1, 1), ent(1));
    s.set(&pos(2, 2), ent(2));
    s.set(&pos(3, 3), ent(3));
    assert_eq!(s.get(&pos(1, 1)), ent(1));
    assert_eq!(s.get(&pos(0, 0)), None);
    assert_eq!(s.iter().len(), 3);
    s.remove(&pos(1, 1));
    assert_eq!(s.get(&pos(1, 1)), None);
    assert_eq!(s.iter().len(), 2);
    match &s.data {
        TileStorageData::Sparse { position_to_index, tiles, index_to_position } => {
            assert_eq!(position_to_index.len(), 2);
            assert_eq!(tiles.len(), 2);
            assert_eq!(index_to_position.len(), 2);
        }
        TileStorageData::Dense { .. } => panic!("expected a sparse storage"),
    }
    // The slot freed by the removal now holds whichever entry was swapped
    // in; both survivors stay retrievable at their original positions.
    assert_eq!(s.get(&pos(2, 2)), ent(2));
    assert_eq!(s.get(&pos(3, 3)), ent(3));
    let items = s.iter();
    assert!(items.contains(&ent(2)));
    assert!(items.contains(&ent(3)));
}

#[test]
fn dense_grid_starts_all_empty() {
    let size = TilemapSize { x: 2, y: 2 };
    let s = TileStorage::empty(size, TileStorageMode::DenseVec);
    let items = s.iter();
    assert_eq!(items.len(), 4);
    for item in items {
        assert_eq!(item, None);
    }
}

#[test]
fn removing_the_only_sparse_entry_clears_the_slots() {
    let size = TilemapSize { x: 5, y: 5 };
    let mut s = TileStorage::empty(size, TileStorageMode::SparseHashMap);
    s.set(&pos(4, 4), ent(10));
    assert_eq!(s.iter().len(), 1);
    s.remove(&pos(4, 4));
    assert_eq!(s.iter().len(), 0);
    assert_eq!(s.get(&pos(4, 4)), None);
}

#[test]
fn removing_the_last_sparse_slot_needs_no_repoint() {
    let size = TilemapSize { x: 4, y: 4 };
    let mut s = TileStorage::empty(size, TileStorageMode::SparseHashMap);
    s.set(&pos(0, 0), ent(1));
    s.set(&pos(1, 0), ent(2));
    s.set(&pos(2, 0), ent(3));
    // The most recently appended entry sits in the last slot.
    s.remove(&pos(2, 0));
    assert_eq!(s.get(&pos(2, 0)), None);
    assert_eq!(s.get(&pos(0, 0)), ent(1));
    assert_eq!(s.get(&pos(1, 0)), ent(2));
    assert_eq!(s.iter().len(), 2);
}

#[test]
fn iter_mut_overwrites_dense_slot() {
    let size = TilemapSize { x: 2, y: 2 };
    let mut s = TileStorage::empty(size, TileStorageMode::DenseVec);
    // Slot 3 of a 2x2 grid is position (1, 1) in row-major order.
    s.iter_mut(3, ent(8));
    assert_eq!(s.get(&pos(1, 1)), ent(8));
    s.iter_mut(3, None);
    assert_eq!(s.get(&pos(1, 1)), None);
}

#[test]
fn iter_mut_overwrites_sparse_slot() {
    let size = TilemapSize { x: 3, y: 3 };
    let mut s = TileStorage::empty(size, TileStorageMode::SparseHashMap);
    s.set(&pos(2, 0), ent(1));
    s.iter_mut(0, ent(42));
    assert_eq!(s.get(&pos(2, 0)), ent(42));
    assert_eq!(s.iter().len(), 1);
}

#[test]
fn default_storage_is_dense_and_empty() {
    let s = TileStorage::default();
    assert_eq!(s.size, TilemapSize { x: 0, y: 0 });
    assert_eq!(s.iter().len(), 0);
    assert!(matches!(TileStorageMode::default(), TileStorageMode::DenseVec));
}

#[test]
fn zero_sized_grid_iterates_nothing() {
    let size = TilemapSize { x: 0, y: 0 };
    let s = TileStorage::empty(size, TileStorageMode::DenseVec);
    assert_eq!(s.iter().len(), 0);
}

#[test]
fn pos_2d_to_index_is_row_major() {
    let size = TilemapSize { x: 4, y: 3 };
    assert_eq!(tile_storage::helpers::pos_2d_to_index(&pos(0, 0), &size), 0);
    assert_eq!(tile_storage::helpers::pos_2d_to_index(&pos(3, 0), &size), 3);
    assert_eq!(tile_storage::helpers::pos_2d_to_index(&pos(0, 1), &size), 4);
    assert_eq!(tile_storage::helpers::pos_2d_to_index(&pos(2, 2), &size), 10);
}
