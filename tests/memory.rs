use chunk_locker::memory::{MemoryConfig, MemoryManager};

fn pool(count: usize) -> MemoryManager {
    MemoryManager::new(&MemoryConfig { buffer_count: count, buffer_size: 1024 })
}

#[test]
fn default_config() {
    let c = MemoryConfig::default();
    assert_eq!(c.buffer_count, 16);
    assert_eq!(c.buffer_size, 16 * 1024 * 1024);
}

#[test]
fn alloc_one_handle() {
    let mut manager = pool(4);
    let h = manager.try_alloc().unwrap();
    assert_eq!(manager.allocations(), 1);
    assert_eq!(h.max_len(), 1024);
    assert_eq!(h.allocation_idx(), 0);
    assert_eq!(h.len(), 0);
    assert!(manager.dealloc(h));
    assert_eq!(manager.allocations(), 0);
}

#[test]
fn multiple_alloc() {
    let mut manager = pool(4);
    assert_eq!(manager.allocations(), 0);
    let a = manager.try_alloc().unwrap();
    let b = manager.try_alloc().unwrap();
    let c = manager.try_alloc().unwrap();
    let d = manager.try_alloc().expect("Should work with opening since we have static test mutex locked");
    assert_eq!(manager.allocations(), 4);
    assert_ne!(a.allocation_idx(), b.allocation_idx());
    assert_ne!(a.allocation_idx(), c.allocation_idx());
    assert_ne!(a.allocation_idx(), d.allocation_idx());
    assert_ne!(b.allocation_idx(), c.allocation_idx());
    assert_ne!(b.allocation_idx(), d.allocation_idx());
    assert_ne!(c.allocation_idx(), d.allocation_idx());
    assert!(manager.try_alloc().is_none());
    for h in [a, b, c, d] {
        assert!(manager.dealloc(h));
    }
    assert_eq!(manager.allocations(), 0);
    let e = manager.try_alloc();
    assert!(e.is_some());
    assert!(manager.dealloc(e.unwrap()));
    assert_eq!(manager.allocations(), 0);
}

#[test]
fn slots_are_handed_out_in_order_and_reused() {
    let mut manager = pool(3);
    assert_eq!(manager.buffer_count(), 3);
    assert_eq!(manager.buffer_size(), 1024);
    let a = manager.try_alloc().unwrap();
    let b = manager.try_alloc().unwrap();
    let c = manager.try_alloc().unwrap();
    assert_eq!((a.allocation_idx(), b.allocation_idx(), c.allocation_idx()), (0, 1, 2));
    assert!(manager.try_alloc().is_none());
    assert!(manager.dealloc(b));
    assert_eq!(manager.allocations(), 2);
    let b2 = manager.try_alloc().unwrap();
    assert_eq!(b2.allocation_idx(), 1);
    assert_eq!(b2.len(), 0);
    assert!(manager.dealloc(a));
    assert!(manager.dealloc(b2));
    assert!(manager.dealloc(c));
    assert_eq!(manager.allocations(), 0);
}

#[test]
fn dealloc_refuses_foreign_handles() {
    let mut first = pool(2);
    let mut second = MemoryManager::new(&MemoryConfig { buffer_count: 2, buffer_size: 2048 });
    let h = first.try_alloc().unwrap();
    assert!(!second.dealloc(h));
    assert_eq!(first.allocations(), 1);
    assert_eq!(second.allocations(), 0);
    let mut third = pool(2);
    let h = first.try_alloc().unwrap();
    assert_eq!(h.allocation_idx(), 1);
    // slot 1 of the third pool is free
    assert!(!third.dealloc(h));
}

#[test]
fn write_basic() {
    let mut manager = pool(2);
    let mut m = manager.try_alloc().unwrap();
    m.extend_from_slice(&[0, 0, 0, 0]);
    assert_eq!(m.len(), 4);
    m.set(0, 1);
    m.set(1, 2);
    m.set(2, 4);
    m.set(3, 6);
    assert_eq!(m.get(0), 1);
    assert_eq!(m.get(1), 2);
    assert_eq!(m.get(2), 4);
    assert_eq!(m.get(3), 6);
    assert!(manager.dealloc(m));
}

#[test]
fn allocations() {
    let mut manager = pool(5);
    assert_eq!(manager.buffer_count(), 5);
    assert_eq!(manager.allocations(), 0);
    let h = manager.try_alloc().unwrap();
    assert_eq!(manager.allocations(), 1);
    assert!(manager.dealloc(h));
    assert_eq!(manager.allocations(), 0);
}

#[test]
fn increase_bounds() {
    let mut manager = pool(2);
    let mut m = manager.try_alloc().unwrap();
    let full = vec![0u8; m.max_len()];
    m.extend_from_slice(&full);
    assert_eq!(m.len(), m.max_len());
    assert_eq!(m.len(), 1024);
    assert!(manager.dealloc(m));
}

#[test]
fn write_slice() {
    let mut manager = pool(2);
    let mut m = manager.try_alloc().unwrap();
    m.extend_from_slice(&[0; 4]);
    assert_eq!(m.as_slice().len(), 4);
    m.set(0, 1);
    m.set(1, 2);
    m.set(2, 4);
    m.set(3, 6);
    let s = m.as_slice();
    assert_eq!(s[0], 1);
    assert_eq!(s[1], 2);
    assert_eq!(s[2], 4);
    assert_eq!(s[3], 6);
    assert!(manager.dealloc(m));
}

#[test]
fn truncate_and_fill_to_capacity() {
    let mut manager = pool(2);
    let mut m = manager.try_alloc().unwrap();
    m.extend_from_slice(&[9u8; 1024]);
    assert_eq!(m.len(), m.max_len());
    m.truncate(10);
    assert_eq!(m.as_slice(), &[9u8; 10]);
    m.truncate(0);
    assert_eq!(m.len(), 0);
    assert!(manager.dealloc(m));
}

#[test]
fn bytes_read() {
    let mut manager = pool(2);
    let mut m = manager.try_alloc().unwrap();
    m.extend_from_slice(&[1, 2, 4, 6]);
    assert_eq!(m.cursor().chunk(), &[1, 2, 4, 6]);
    let mut c = m.cursor();
    assert_eq!(c.remaining(), 4);
    c.advance(2);
    assert_eq!(c.chunk(), &[4, 6]);
    c.advance(2);
    assert_eq!(c.remaining(), 0);
    let c = m.cursor_from(1);
    assert_eq!(c.remaining(), 3);
    assert_eq!(c.chunk(), &[2, 4, 6]);
    let c = m.cursor_from(4);
    assert_eq!(c.remaining(), 0);
    assert!(manager.dealloc(m));
}

#[test]
fn bytes_write() {
    let mut manager = pool(2);
    let mut m = manager.try_alloc().unwrap();
    assert_eq!(m.len(), 0);
    m.cursor_mut().put_slice(&[6, 8, 12, 72, 53]);
    assert_eq!(m.len(), 5);
    assert_eq!(m.as_slice(), &[6, 8, 12, 72, 53]);
    let mut c = m.cursor_mut_from(1);
    c.put_slice(&[2, 3, 5]);
    assert_eq!(m.len(), 5);
    assert_eq!(m.as_slice(), &[6, 2, 3, 5, 53]);
    let mut c = m.cursor_mut_from(5);
    assert_eq!(c.remaining_mut(), 1019);
    c.put_slice(&[1, 2, 3]);
    assert_eq!(m.len(), 8);
    assert_eq!(m.as_slice(), &[6, 2, 3, 5, 53, 1, 2, 3]);
    m.write_at(7, &[7, 7]);
    assert_eq!(m.as_slice(), &[6, 2, 3, 5, 53, 1, 2, 7, 7]);
    assert!(manager.dealloc(m));
}
