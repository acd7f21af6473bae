use jlrs::error::JlrsError;
use jlrs::stack::{AllocError, FrameIdx, Output, StackPage};

#[test]
fn fixed_frame_in_small_page() {
    let mut page = StackPage::new(8);
    assert_eq!(page.occupancy(), 0);
    let frame = page.new_static_frame(2).unwrap();
    assert_eq!(page.occupancy(), 4);
    assert_eq!(page.set_root(frame, 0, 11), Ok(()));
    assert_eq!(page.set_root(frame, 1, 22), Ok(()));
    assert_eq!(page.occupancy(), 4);
    assert_eq!(page.get_root(frame, 0), Some(11));
    assert_eq!(page.get_root(frame, 1), Some(22));
    assert_eq!(page.set_root(frame, 2, 33), Err(AllocError::FrameOverflow(2, 2)));
    assert_eq!(page.occupancy(), 4);
    assert_eq!(page.get_root(frame, 2), None);
}

#[test]
fn frame_too_large_is_refused() {
    let mut page = StackPage::new(8);
    let free = page.free_slots();
    assert_eq!(free, 7);
    assert_eq!(page.new_static_frame(6), Err(AllocError::StackOverflow(8, 8)));
    assert_eq!(page.occupancy(), 0);
    let frame = page.new_static_frame(5).unwrap();
    assert_eq!(page.occupancy(), 7);
    assert_eq!(page.free_slots(), 0);
    assert_eq!(page.new_dynamic_frame(), Err(AllocError::StackOverflow(2, 8)));
    assert_eq!(page.occupancy(), 7);
    page.pop_frame(frame);
    assert_eq!(page.occupancy(), 0);
}

#[test]
fn huge_capacity_is_refused_without_overflow() {
    let mut page = StackPage::new(8);
    assert_eq!(page.new_static_frame(usize::MAX), Err(AllocError::StackOverflow(usize::MAX, 8)));
    assert_eq!(page.occupancy(), 0);
}

#[test]
fn balanced_opens_and_closes_restore_occupancy() {
    let mut page = StackPage::new(64);
    let outer = page.new_static_frame(3).unwrap();
    let before = page.occupancy();
    assert_eq!(before, 5);
    let a = page.new_static_frame(1).unwrap();
    let b = page.new_dynamic_frame().unwrap();
    page.push_root(b, 7).unwrap();
    page.pop_frame(b);
    let c = page.new_static_frame(4).unwrap();
    page.pop_frame(c);
    page.pop_frame(a);
    assert_eq!(page.occupancy(), before);
    page.pop_frame(outer);
    assert_eq!(page.occupancy(), 0);
    assert_eq!(page.head(), 0);
}

#[test]
fn frame_indices_and_head_follow_the_layout() {
    let mut page = StackPage::new(32);
    let a = page.new_static_frame(2).unwrap();
    assert_eq!(a, FrameIdx(3));
    assert_eq!(page.head(), 1);
    let b = page.new_dynamic_frame().unwrap();
    assert_eq!(b, FrameIdx(7));
    assert_eq!(page.head(), 5);
    page.pop_frame(b);
    assert_eq!(page.head(), 1);
    page.pop_frame(a);
    assert_eq!(page.head(), 0);
}

#[test]
fn growable_frame_keeps_roots_in_order() {
    let mut page = StackPage::new(16);
    let frame = page.new_dynamic_frame().unwrap();
    let values = [5usize, 9, 2, 9, 100];
    for v in values.iter() {
        page.push_root(frame, *v).unwrap();
    }
    assert_eq!(page.occupancy(), 2 + values.len());
    for (i, v) in values.iter().enumerate() {
        assert_eq!(page.get_root(frame, i), Some(*v));
    }
    assert_eq!(page.get_root(frame, values.len()), None);
}

#[test]
fn growable_frame_stops_when_page_is_full() {
    let mut page = StackPage::new(5);
    let frame = page.new_dynamic_frame().unwrap();
    assert_eq!(page.push_root(frame, 1), Ok(()));
    assert_eq!(page.push_root(frame, 2), Ok(()));
    assert_eq!(page.push_root(frame, 3), Err(AllocError::StackOverflow(1, 5)));
    assert_eq!(page.occupancy(), 4);
    assert_eq!(page.get_root(frame, 0), Some(1));
    assert_eq!(page.get_root(frame, 1), Some(2));
}

#[test]
fn output_outlives_nested_frame() {
    let mut page = StackPage::new(32);
    let a = page.new_dynamic_frame().unwrap();
    let out = page.new_output(a).unwrap();
    assert_eq!(out, Output { offset: 3 });
    let at = out.offset;
    assert_eq!(page.read_slot(at), Some(0));
    let b = page.new_static_frame(2).unwrap();
    page.set_root(b, 0, 41).unwrap();
    page.pop_frame(b);
    page.protect_output(out, 42);
    assert_eq!(page.read_slot(at), Some(42));
    assert_eq!(page.get_root(a, 0), Some(42));
    let c = page.new_static_frame(1).unwrap();
    assert_eq!(page.read_slot(at), Some(42));
    page.pop_frame(c);
    page.pop_frame(a);
    assert_eq!(page.read_slot(at), None);
}

#[test]
fn output_written_while_child_is_open() {
    let mut page = StackPage::new(32);
    let a = page.new_dynamic_frame().unwrap();
    let out = page.new_output(a).unwrap();
    let at = out.offset;
    let b = page.new_dynamic_frame().unwrap();
    page.protect_output(out, 77);
    assert_eq!(page.read_slot(at), Some(77));
    page.pop_frame(b);
    assert_eq!(page.read_slot(at), Some(77));
}

#[test]
fn output_needs_a_free_slot() {
    let mut page = StackPage::new(3);
    let a = page.new_dynamic_frame().unwrap();
    assert_eq!(page.new_output(a), Err(AllocError::StackOverflow(1, 3)));
}

#[test]
fn static_output_targets_a_reserved_root() {
    let mut page = StackPage::new(16);
    let a = page.new_static_frame(3).unwrap();
    let out = page.new_static_output(a, 2).unwrap();
    assert_eq!(out, Output { offset: 5 });
    assert_eq!(page.new_static_output(a, 3), Err(AllocError::FrameOverflow(3, 3)));
    let b = page.new_static_frame(0).unwrap();
    page.protect_output(out, 9);
    page.pop_frame(b);
    assert_eq!(page.get_root(a, 2), Some(9));
}

#[test]
fn header_and_link_slots_are_not_root_slots() {
    let mut page = StackPage::new(16);
    let _a = page.new_static_frame(1).unwrap();
    assert_eq!(page.read_slot(0), None);
    assert_eq!(page.read_slot(1), None);
    assert_eq!(page.read_slot(2), None);
    assert_eq!(page.read_slot(3), Some(0));
    assert_eq!(page.read_slot(4), None);
}

#[test]
fn grow_replaces_an_idle_page() {
    let mut page = StackPage::new(4);
    page.grow(40);
    assert_eq!(page.size(), 40);
    assert_eq!(page.occupancy(), 0);
    assert_eq!(page.free_slots(), 39);
    let d = StackPage::default_page();
    assert_eq!(d.size(), 64);
}

#[test]
fn alloc_error_wraps_into_library_error() {
    let e = JlrsError::Alloc(AllocError::StackOverflow(3, 4));
    assert!(matches!(e, JlrsError::Alloc(AllocError::StackOverflow(3, 4))));
}

#[test]
fn collector_walk_sees_every_root_top_first() {
    let mut page = StackPage::new(32);
    assert!(page.roots().is_empty());
    let a = page.new_static_frame(2).unwrap();
    page.set_root(a, 0, 1).unwrap();
    page.set_root(a, 1, 2).unwrap();
    let b = page.new_dynamic_frame().unwrap();
    page.push_root(b, 3).unwrap();
    page.push_root(b, 4).unwrap();
    let _c = page.new_static_frame(0).unwrap();
    assert_eq!(page.roots(), vec![3, 4, 1, 2]);
    assert!(page.is_top_frame(_c));
    assert!(!page.is_top_frame(b));
    page.pop_frame(_c);
    assert!(page.is_top_frame(b));
    page.pop_frame(b);
    assert_eq!(page.roots(), vec![1, 2]);
}

#[test]
fn failed_open_keeps_head() {
    let mut page = StackPage::new(8);
    let a = page.new_static_frame(1).unwrap();
    assert_eq!(page.head(), 1);
    assert!(page.new_static_frame(5).is_err());
    assert_eq!(page.head(), 1);
    page.pop_frame(a);
    assert_eq!(page.head(), 0);
}
