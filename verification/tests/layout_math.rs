use rsbmalloc::layout::{Layout, exec_is_power_of_two};
use rsbmalloc::shim::{
    HEADER_SIZE, aligned_alloc_layout, create_alloc_layout, create_calloc_layout, get_align,
};

#[test]
fn power_of_two_test() {
    assert!(!exec_is_power_of_two(0));
    assert!(exec_is_power_of_two(1));
    assert!(exec_is_power_of_two(2));
    assert!(!exec_is_power_of_two(3));
    assert!(exec_is_power_of_two(4096));
    assert!(!exec_is_power_of_two(4097));
    assert!(exec_is_power_of_two(1 << 40));
}

#[test]
fn from_size_align_checks_its_inputs() {
    assert_eq!(Layout::from_size_align(100, 0), None);
    assert_eq!(Layout::from_size_align(100, 3), None);
    assert_eq!(Layout::from_size_align(usize::MAX, 2), None);
    let l = Layout::from_size_align(100, 8).unwrap();
    assert_eq!(l.size, 100);
    assert_eq!(l.align, 8);
}

#[test]
fn padding_rounds_to_alignment() {
    let l = Layout::from_size_align(100, 8).unwrap();
    assert_eq!(l.pad_to_align(), 104);
    let l = Layout::from_size_align(104, 8).unwrap();
    assert_eq!(l.pad_to_align(), 104);
    let l = Layout::from_size_align(1, 4096).unwrap();
    assert_eq!(l.pad_to_align(), 4096);
}

#[test]
fn align_to_raises_alignment() {
    let l = Layout::from_size_align(100, 8).unwrap();
    let raised = l.align_to(4096).unwrap();
    assert_eq!(raised.size, 100);
    assert_eq!(raised.align, 4096);
    let kept = l.align_to(2).unwrap();
    assert_eq!(kept.align, 8);
}

#[test]
fn get_align_is_power_of_two_floor() {
    assert_eq!(get_align(1), 1);
    assert_eq!(get_align(2), 2);
    assert_eq!(get_align(3), 2);
    assert_eq!(get_align(100), 64);
    assert_eq!(get_align(1024), 1024);
    assert_eq!(get_align(1025), 1024);
    assert_eq!(get_align(65535), 32768);
}

#[test]
fn malloc_layout_has_header_and_floor_alignment() {
    let l = create_alloc_layout(100);
    assert_eq!(l.size, 100 + HEADER_SIZE);
    assert_eq!(l.align, 64);
    let l = create_alloc_layout(1);
    assert_eq!(l.size, 1 + HEADER_SIZE);
    assert_eq!(l.align, 8);
    let l = create_alloc_layout(4096);
    assert_eq!(l.size, 4096 + HEADER_SIZE);
    assert_eq!(l.align, 4096);
}

#[test]
fn calloc_layout_covers_the_whole_array() {
    let l = create_calloc_layout(3, 100);
    assert_eq!(l.size, 300 + HEADER_SIZE);
    assert_eq!(l.align, 64);
    let l = create_calloc_layout(0, 16);
    assert_eq!(l.size, HEADER_SIZE);
    assert_eq!(l.align, 16);
}

#[test]
fn aligned_layout_reserves_one_alignment_unit() {
    let l = aligned_alloc_layout(16, 100).unwrap();
    assert_eq!(l.size, 116);
    assert_eq!(l.align, 16);
    assert_eq!(aligned_alloc_layout(3, 100), None);
    assert_eq!(aligned_alloc_layout(16, usize::MAX), None);
}
