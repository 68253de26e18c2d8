use rustlab::tp_alloc::{blocks_for, MyAllocData, ALLOC_BLOCK_NUM, ALLOC_BLOCK_SIZE};

#[test]
fn test_max_alloc() {
    let mut data = MyAllocData::new();
    // The whole arena at once lands at its start.
    assert_eq!(data.alloc_blocks(ALLOC_BLOCK_NUM * ALLOC_BLOCK_SIZE), Some(0));
    // Nothing is left, not even one byte.
    assert_eq!(data.alloc_blocks(1), None);
}

#[test]
fn test_one_block_alloc() {
    let mut data = MyAllocData::new();
    for i in 0..ALLOC_BLOCK_NUM {
        assert_eq!(data.alloc_blocks(1), Some(i * ALLOC_BLOCK_SIZE));
    }
    assert_eq!(data.alloc_blocks(1), None);
}

#[test]
fn test_alloc_dealloc() {
    let mut data = MyAllocData::new();
    let all = ALLOC_BLOCK_NUM * ALLOC_BLOCK_SIZE;
    for _i in 0..3 {
        assert_eq!(data.alloc_blocks(all), Some(0));
        data.dealloc_blocks(0, all);
    }
}

#[test]
fn blocks_for_rounds_up() {
    assert_eq!(blocks_for(0), 0);
    assert_eq!(blocks_for(1), 1);
    assert_eq!(blocks_for(64), 1);
    assert_eq!(blocks_for(65), 2);
    assert_eq!(blocks_for(128), 2);
    assert_eq!(blocks_for(usize::MAX), usize::MAX / 64 + 1);
}

#[test]
fn find_blocks_takes_the_lowest_fitting_run() {
    let mut data = MyAllocData::new();
    assert_eq!(data.find_blocks(0), None);
    assert_eq!(data.find_blocks(ALLOC_BLOCK_NUM), Some(0));
    data.mark_blocks(0, 3, false);
    data.mark_blocks(5, 1, false);
    // blocks 3 and 4 are free, block 5 is not
    assert_eq!(data.find_blocks(2), Some(3));
    assert_eq!(data.find_blocks(3), Some(6));
    data.mark_blocks(6, ALLOC_BLOCK_NUM - 6, false);
    assert_eq!(data.find_blocks(3), None);
    assert_eq!(data.find_blocks(1), Some(3));
}

#[test]
fn zero_size_request_gets_nothing() {
    let mut data = MyAllocData::new();
    assert_eq!(data.alloc_blocks(0), None);
    assert_eq!(data.alloc_blocks(100), Some(0));
    assert_eq!(data.alloc_blocks(1), Some(2 * ALLOC_BLOCK_SIZE));
}

#[test]
fn freed_run_is_reused_and_allocations_do_not_overlap() {
    let mut data = MyAllocData::new();
    let a = data.alloc_blocks(3 * 64).unwrap();
    let b = data.alloc_blocks(64).unwrap();
    let c = data.alloc_blocks(2 * 64).unwrap();
    assert_eq!((a, b, c), (0, 3 * 64, 4 * 64));
    data.dealloc_blocks(a, 3 * 64);
    // the first fit for two blocks is now the freed run
    assert_eq!(data.alloc_blocks(2 * 64), Some(0));
    // one free block remains at block 2, before b
    assert_eq!(data.alloc_blocks(64), Some(2 * 64));
    assert_eq!(data.alloc_blocks(64), Some(6 * 64));
}

#[test]
fn successive_allocations_use_disjoint_bytes_inside_the_arena() {
    let mut data = MyAllocData::new();
    let sizes = [1usize, 63, 64, 65, 200, 1];
    let mut spans: Vec<(usize, usize)> = Vec::new();
    for size in sizes.iter() {
        let off = data.alloc_blocks(*size).unwrap();
        assert!(off + size <= ALLOC_BLOCK_NUM * ALLOC_BLOCK_SIZE);
        for (o, s) in spans.iter() {
            assert!(off + size <= *o || o + s <= off);
        }
        spans.push((off, *size));
    }
}
