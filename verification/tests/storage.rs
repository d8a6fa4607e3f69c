use renderer::storage::Storage;

#[test]
fn storage_starts_empty_with_room_for_one() {
    let s: Storage<()> = Storage::new(16);
    assert_eq!(s.len(), 0);
    assert_eq!(s.buffer_size(), 16);
}

#[test]
fn storage_add_grows_buffer_by_half() {
    let mut s: Storage<()> = Storage::new(16);
    let (a, re) = s.add();
    assert_eq!(a.index(), 0);
    assert!(re.is_none());
    let (b, re) = s.add();
    assert_eq!(b.index(), 1);
    let re = re.expect("two elements do not fit in one slot");
    assert_eq!(re.new_size, 48);
    assert_eq!(re.copy_size, 16);
    let (c, re) = s.add();
    assert_eq!(c.index(), 2);
    assert!(re.is_none());
    let (d, re) = s.add();
    assert_eq!(d.index(), 3);
    let re = re.expect("four elements do not fit in three slots");
    assert_eq!(re.new_size, 96);
    assert_eq!(re.copy_size, 48);
    assert_eq!(s.len(), 4);
    assert_eq!(s.buffer_size(), 96);
    assert_eq!(s.update(a), 0);
    assert_eq!(s.update(b), 16);
    assert_eq!(s.update(c), 32);
    assert_eq!(s.update(d), 48);
}

#[test]
fn storage_remove_moves_last_element_into_gap() {
    let mut s: Storage<()> = Storage::new(8);
    let (a, _) = s.add();
    let (b, _) = s.add();
    let (c, _) = s.add();
    let mv = s.remove(a);
    assert_eq!(mv.source_offset, 16);
    assert_eq!(mv.destination_offset, 0);
    assert_eq!(mv.size, 8);
    assert_eq!(s.len(), 2);
    assert!(!s.is_live(a));
    assert!(s.is_live(b));
    assert!(s.is_live(c));
    assert_eq!(s.update(c), 0);
    assert_eq!(s.update(b), 8);
}

#[test]
fn storage_remove_last_element_moves_nothing_else() {
    let mut s: Storage<()> = Storage::new(8);
    let (a, _) = s.add();
    let (b, _) = s.add();
    let mv = s.remove(b);
    assert_eq!(mv.source_offset, 8);
    assert_eq!(mv.destination_offset, 8);
    assert_eq!(s.update(a), 0);
    assert!(!s.is_live(b));
}

#[test]
fn storage_remove_then_add_reuses_the_id() {
    let mut s: Storage<()> = Storage::new(4);
    let (a, _) = s.add();
    let (b, _) = s.add();
    let (c, _) = s.add();
    s.remove(b);
    let size_before = s.buffer_size();
    let (again, re) = s.add();
    assert_eq!(again.index(), b.index());
    assert!(re.is_none());
    assert_eq!(s.buffer_size(), size_before);
    assert_eq!(s.update(again), 8);
    assert_eq!(s.update(a), 0);
    assert_eq!(s.update(c), 4);
    assert_eq!(s.len(), 3);
}

#[test]
fn storage_can_add_while_it_fits() {
    let mut s: Storage<()> = Storage::new(usize::MAX / 2);
    assert!(s.can_add());
    s.add();
    assert!(!s.can_add());
    let mut small: Storage<()> = Storage::new(1);
    assert!(small.can_add());
    small.add();
    assert!(small.can_add());
}
