use rsbmalloc::bin::FreeList;
use rsbmalloc::thread_cache::{bucket_index, buckets_for, hash_usize, num_thread_buckets};

#[test]
fn mixer_matches_known_values() {
    assert_eq!(hash_usize(0), 0);
    assert_eq!(hash_usize(1), 12994781566227106604usize);
    assert_eq!(hash_usize(2), 4233148493373801447usize);
    assert_eq!(hash_usize(42), 9297814886316923340usize);
}

#[test]
fn buckets_stay_in_range() {
    for id in 0..1000usize {
        let b = bucket_index(id, 7);
        assert!(b < 7);
        assert_eq!(b, hash_usize(id) % 7);
    }
    assert_eq!(bucket_index(0, 1), 0);
}

#[test]
fn bucket_count_is_four_per_cpu() {
    assert_eq!(buckets_for(0), 4);
    assert_eq!(buckets_for(1), 4);
    assert_eq!(buckets_for(7), 28);
    assert_eq!(buckets_for(usize::MAX), 4 * 0x10000);
    let n = num_thread_buckets();
    assert!(n >= 4);
    assert_eq!(n % 4, 0);
}

#[test]
fn free_list_head_round_trip() {
    let empty = FreeList::null();
    assert!(!empty.has_head());
    assert_eq!(empty.option_nn(), None);
    let l = FreeList::from(Some(0x1000usize));
    assert!(l.has_head());
    assert_eq!(l.option_nn(), Some(0x1000));
    let l = FreeList::from(None);
    assert!(!l.has_head());
    assert_eq!(l.option_nn(), None);
}
