use high_performance_server::memory::{MemoryAllocator, MemoryManager, MemoryPool};

#[test]
fn test_memory_pool_creation() {
    let pool = MemoryPool::new(64, 10);
    assert_eq!(pool.capacity(), 10);
    assert_eq!(pool.in_use(), 0);
    assert_eq!(pool.size_class(), 64);
}

#[test]
fn test_memory_pool_allocate_deallocate() {
    let mut pool = MemoryPool::new(64, 10);

    // Allocate a block
    let ptr = pool.allocate().unwrap();
    assert_eq!(pool.in_use(), 1);

    // Deallocate the block
    pool.deallocate(ptr).unwrap();
    assert_eq!(pool.in_use(), 0);
}

#[test]
fn test_memory_pool_auto_resize() {
    let mut pool = MemoryPool::new(64, 2);

    // Allocate all initial blocks
    let ptr1 = pool.allocate().unwrap();
    let ptr2 = pool.allocate().unwrap();
    assert_eq!(pool.in_use(), 2);

    // Allocate one more - should trigger resize
    let ptr3 = pool.allocate().unwrap();
    assert!(pool.capacity() > 2);
    assert_eq!(pool.in_use(), 3);

    // Clean up
    pool.deallocate(ptr1).unwrap();
    pool.deallocate(ptr2).unwrap();
    pool.deallocate(ptr3).unwrap();
}

#[test]
fn test_memory_pool_many_allocations() {
    let mut pool = MemoryPool::new(32, 5);

    const NUM_ALLOCS: usize = 100;
    let mut ptrs = Vec::with_capacity(NUM_ALLOCS);

    // Allocate many blocks
    for _ in 0..NUM_ALLOCS {
        ptrs.push(pool.allocate().unwrap());
    }

    assert_eq!(pool.in_use(), NUM_ALLOCS);
    assert!(pool.capacity() >= NUM_ALLOCS);

    // Clean up
    for ptr in ptrs {
        pool.deallocate(ptr).unwrap();
    }

    assert_eq!(pool.in_use(), 0);
}

#[test]
fn test_memory_manager() {
    let mut manager = MemoryManager::new();

    // Allocate different sized blocks
    let mut handle1 = manager.allocate(32).unwrap();
    let mut handle2 = manager.allocate(64).unwrap();
    let mut handle3 = manager.allocate(128).unwrap();

    // Write to the memory
    handle1.as_slice_mut()[0] = 1;
    handle2.as_slice_mut()[0] = 2;
    handle3.as_slice_mut()[0] = 3;

    // Read from the memory
    assert_eq!(handle1.as_slice()[0], 1);
    assert_eq!(handle2.as_slice()[0], 2);
    assert_eq!(handle3.as_slice()[0], 3);

    // Check sizes
    assert!(handle1.size() >= 32);
    assert!(handle2.size() >= 64);
    assert!(handle3.size() >= 128);
}

#[test]
fn test_memory_manager_many_allocations() {
    let mut manager = MemoryManager::new();

    const NUM_ALLOCS: usize = 1000;
    let mut handles = Vec::with_capacity(NUM_ALLOCS);

    // Allocate many blocks of different sizes
    for i in 0..NUM_ALLOCS {
        let size = match i % 4 {
            0 => 32,
            1 => 64,
            2 => 128,
            _ => 256,
        };

        handles.push(manager.allocate(size).unwrap());
    }

    // Write to each block
    for (i, handle) in handles.iter_mut().enumerate() {
        handle.as_slice_mut()[0] = (i % 255) as u8;
    }

    // Read from each block
    for (i, handle) in handles.iter().enumerate() {
        assert_eq!(handle.as_slice()[0], (i % 255) as u8);
    }
}

#[test]
fn test_create_buffer() {
    let mut manager = MemoryManager::new();
    let mut buffer = manager.create_buffer(1024).unwrap();

    assert!(buffer.size() >= 1024);

    // Test writing to the buffer
    let data = buffer.as_slice_mut();
    for i in 0..10 {
        data[i] = i as u8;
    }

    // Test reading from the buffer
    let data = buffer.as_slice();
    for i in 0..10 {
        assert_eq!(data[i], i as u8);
    }
}

#[test]
fn test_pool_growth_under_pressure() {
    // Pool with block size 64 and initial capacity 2: a third allocation
    // still succeeds after geometric growth.
    let mut pool = MemoryPool::new(64, 2);
    pool.allocate().unwrap();
    pool.allocate().unwrap();
    let third = pool.allocate();
    assert!(third.is_ok());
    assert!(pool.capacity() >= 3);
    assert_eq!(pool.in_use(), 3);
}

#[test]
fn test_pool_deallocate_errors() {
    let mut pool = MemoryPool::new(64, 4);
    // An index that is no block of the pool
    assert!(matches!(
        pool.deallocate(17),
        Err(high_performance_server::error::ServerError::Memory(_))
    ));
    // A block that is not in use
    assert!(matches!(
        pool.deallocate(0),
        Err(high_performance_server::error::ServerError::Memory(_))
    ));
    // Double free
    let ptr = pool.allocate().unwrap();
    pool.deallocate(ptr).unwrap();
    assert!(matches!(
        pool.deallocate(ptr),
        Err(high_performance_server::error::ServerError::Memory(_))
    ));
}

#[test]
fn test_pool_resize() {
    let mut pool = MemoryPool::new(16, 2);
    pool.allocate().unwrap();
    pool.allocate().unwrap();
    // Shrinking below the in-use count fails
    assert!(matches!(
        pool.resize(1),
        Err(high_performance_server::error::ServerError::Memory(_))
    ));
    // Growing succeeds
    pool.resize(8).unwrap();
    assert_eq!(pool.capacity(), 8);
    assert_eq!(pool.in_use(), 2);
}

#[test]
fn test_allocator_size_classes() {
    let allocator = MemoryAllocator::new();
    assert_eq!(allocator.find_size_class(1), 16);
    assert_eq!(allocator.find_size_class(16), 16);
    assert_eq!(allocator.find_size_class(17), 32);
    assert_eq!(allocator.find_size_class(100), 128);
    assert_eq!(allocator.find_size_class(8192), 8192);
    // Larger than the largest class clamps to the largest
    assert_eq!(allocator.find_size_class(20000), 8192);
}

#[test]
fn test_allocator_allocate_selects_class() {
    let mut allocator = MemoryAllocator::new();
    let (_addr, class) = allocator.allocate(100).unwrap();
    assert_eq!(class, 128);
    let (_addr, class) = allocator.allocate(8193).unwrap();
    assert_eq!(class, 8192);
}

#[test]
fn test_allocator_deallocate_invalid_class() {
    let mut allocator = MemoryAllocator::new();
    assert!(matches!(
        allocator.deallocate(0, 100),
        Err(high_performance_server::error::ServerError::Memory(_))
    ));
}

#[test]
fn test_handle_release_decrements_in_use() {
    // Releasing a handle returns its block: in-use for the pool drops by
    // exactly one.
    let mut manager = MemoryManager::new();
    let handle = manager.allocate(32).unwrap();
    assert_eq!(manager.pool_usage(32).1, 1);
    manager.release(handle).unwrap();
    assert_eq!(manager.pool_usage(32).1, 0);
}

#[test]
fn test_pool_balance() {
    // Allocating N blocks and then deallocating them all returns in-use to
    // zero, while capacity never decreases along the way.
    let mut pool = MemoryPool::new(8, 3);
    let mut addrs = Vec::new();
    let mut cap = pool.capacity();
    for _ in 0..10 {
        addrs.push(pool.allocate().unwrap());
        assert!(pool.capacity() >= cap);
        cap = pool.capacity();
    }
    assert_eq!(pool.in_use(), 10);
    for a in addrs {
        pool.deallocate(a).unwrap();
        assert_eq!(pool.capacity(), cap);
    }
    assert_eq!(pool.in_use(), 0);
}
