use rsbmalloc::classes::{bin_index, class_align_of, class_size_of, class_stride_of};

#[test]
fn align() {
    assert_eq!(class_align_of(0), 8);
    assert_eq!(class_align_of(2), 16);
    assert_eq!(class_align_of(6), 256);
    assert_eq!(class_align_of(8), 1024);
}

#[test]
fn lib_align() {
    assert_eq!(class_align_of(0), 8);
    assert_eq!(class_align_of(2), 16);
    assert_eq!(class_align_of(6), 256);
    assert_eq!(class_align_of(8), 1024);
}

#[test]
fn class_sizes_and_strides() {
    let sizes = [
        4usize, 8, 16, 32, 64, 128, 256, 512, 1024, 2048, 4096, 8192, 16384, 32768, 65536,
    ];
    for (i, s) in sizes.iter().enumerate() {
        assert_eq!(class_size_of(i), *s);
        let expect_stride = if *s < 8 { 8 } else { *s };
        assert_eq!(class_stride_of(i), expect_stride);
        let expect_align = if *s < 8 {
            8
        } else if *s > 4096 {
            4096
        } else {
            *s
        };
        assert_eq!(class_align_of(i), expect_align);
    }
}

#[test]
fn dispatch_picks_smallest_class() {
    assert_eq!(bin_index(1), Some(0));
    assert_eq!(bin_index(4), Some(0));
    assert_eq!(bin_index(5), Some(1));
    assert_eq!(bin_index(513), Some(8));
    assert_eq!(bin_index(65536), Some(14));
    assert_eq!(bin_index(65537), None);
    for padded in 1..=65536usize {
        let idx = bin_index(padded).unwrap();
        assert!(class_size_of(idx) >= padded);
        if idx > 0 {
            assert!(class_size_of(idx - 1) < padded);
        }
    }
}
