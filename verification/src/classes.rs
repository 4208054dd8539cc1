//! The segregated size classes: one power-of-two class per bin, from 4 bytes
//! up to 64 KiB, and the dispatch from a padded request size to the smallest
//! class that holds it.

use vstd::prelude::*;

verus! {

use vstd::arithmetic::div_mod::lemma_mod_self_0;

use crate::CHUNK_SIZE;
use crate::layout::is_power_of_two;

/// How many size classes the allocator serves from bins.
pub const NUM_CLASSES: usize = 15;

/// The nominal size of class `i`: 4, 8, 16, ... 65536 bytes.
pub open spec fn class_size(i: int) -> int {
    if i == 0 {
        4
    } else if i == 1 {
        8
    } else if i == 2 {
        16
    } else if i == 3 {
        32
    } else if i == 4 {
        64
    } else if i == 5 {
        128
    } else if i == 6 {
        256
    } else if i == 7 {
        512
    } else if i == 8 {
        1024
    } else if i == 9 {
        2048
    } else if i == 10 {
        4096
    } else if i == 11 {
        8192
    } else if i == 12 {
        16384
    } else if i == 13 {
        32768
    } else {
        65536
    }
}

/// The stride at which class `i` carves slots out of a chunk. A slot also
/// serves as a free-list link when unused, so the two smallest classes are
/// widened to hold a pointer.
pub open spec fn class_stride(i: int) -> int {
    if class_size(i) < 8 {
        8
    } else {
        class_size(i)
    }
}

/// The alignment class `i` guarantees: the class size itself, raised to 8
/// for the smallest class so a free slot can hold a pointer, and capped at
/// page alignment for the classes of a page and beyond.
pub open spec fn class_align(i: int) -> int {
    if class_size(i) < 8 {
        8
    } else if class_size(i) > 4096 {
        4096
    } else {
        class_size(i)
    }
}

/// The class a padded request size is served from: the smallest class whose
/// size is at least `padded`.
pub open spec fn spec_bin_index(padded: int) -> int {
    if padded <= 4 {
        0
    } else if padded <= 8 {
        1
    } else if padded <= 16 {
        2
    } else if padded <= 32 {
        3
    } else if padded <= 64 {
        4
    } else if padded <= 128 {
        5
    } else if padded <= 256 {
        6
    } else if padded <= 512 {
        7
    } else if padded <= 1024 {
        8
    } else if padded <= 2048 {
        9
    } else if padded <= 4096 {
        10
    } else if padded <= 8192 {
        11
    } else if padded <= 16384 {
        12
    } else if padded <= 32768 {
        13
    } else {
        14
    }
}

/// Facts every class obeys, used when bins are built and when dispatch is
/// proved aligned: strides hold a pointer, divide the chunk evenly, and are
/// multiples of the class alignment.
pub proof fn lemma_class_facts(i: int)
    requires
        0 <= i < NUM_CLASSES,
    ensures
        8 <= class_stride(i) <= CHUNK_SIZE,
        1 <= class_align(i) <= 4096,
        class_stride(i) % class_align(i) == 0,
        (CHUNK_SIZE as int) % class_stride(i) == 0,
        class_size(i) <= class_stride(i),
        is_power_of_two(class_align(i)),
        is_power_of_two(class_stride(i)),
{
    assert(is_power_of_two(8) && is_power_of_two(16) && is_power_of_two(32)
        && is_power_of_two(64) && is_power_of_two(128) && is_power_of_two(256)
        && is_power_of_two(512) && is_power_of_two(1024) && is_power_of_two(2048)
        && is_power_of_two(4096) && is_power_of_two(8192) && is_power_of_two(16384)
        && is_power_of_two(32768) && is_power_of_two(65536)) by {
        reveal_with_fuel(is_power_of_two, 18);
    }
    if i == 0 || i == 1 {
        assert(class_stride(i) == 8 && class_align(i) == 8);
        assert(8int % 8int == 0 && 65536int % 8int == 0);
    } else if i <= 10 {
        assert(class_stride(i) == class_align(i));
        lemma_mod_self_0(class_stride(i));
        assert(65536int % 16int == 0 && 65536int % 32int == 0 && 65536int % 64int == 0
            && 65536int % 128int == 0 && 65536int % 256int == 0 && 65536int % 512int == 0
            && 65536int % 1024int == 0 && 65536int % 2048int == 0 && 65536int % 4096int == 0);
    } else {
        assert(class_align(i) == 4096);
        assert(8192int % 4096int == 0 && 16384int % 4096int == 0 && 32768int % 4096int == 0
            && 65536int % 4096int == 0);
        assert(65536int % 8192int == 0 && 65536int % 16384int == 0 && 65536int % 32768int == 0
            && 65536int % 65536int == 0);
    }
}

/// Dispatch serves a request from a class that really holds it: the class
/// size reaches the padded size, and no smaller class does.
pub proof fn lemma_bin_index_fits(padded: int)
    requires
        1 <= padded <= CHUNK_SIZE,
    ensures
        0 <= spec_bin_index(padded) < NUM_CLASSES,
        padded <= class_size(spec_bin_index(padded)),
        spec_bin_index(padded) > 0 ==> class_size(spec_bin_index(padded) - 1) < padded,
{
}

/// The nominal size of class `i`.
pub fn class_size_of(i: usize) -> (r: usize)
    requires
        i < NUM_CLASSES,
    ensures
        r == class_size(i as int),
{
    if i == 0 {
        4
    } else if i == 1 {
        8
    } else if i == 2 {
        16
    } else if i == 3 {
        32
    } else if i == 4 {
        64
    } else if i == 5 {
        128
    } else if i == 6 {
        256
    } else if i == 7 {
        512
    } else if i == 8 {
        1024
    } else if i == 9 {
        2048
    } else if i == 10 {
        4096
    } else if i == 11 {
        8192
    } else if i == 12 {
        16384
    } else if i == 13 {
        32768
    } else {
        65536
    }
}

/// The stride at which class `i` carves slots.
pub fn class_stride_of(i: usize) -> (r: usize)
    requires
        i < NUM_CLASSES,
    ensures
        r == class_stride(i as int),
{
    let s = class_size_of(i);
    if s < 8 {
        8
    } else {
        s
    }
}

/// The alignment class `i` guarantees.
pub fn class_align_of(i: usize) -> (r: usize)
    requires
        i < NUM_CLASSES,
    ensures
        r == class_align(i as int),
{
    let s = class_size_of(i);
    if s < 8 {
        8
    } else if s > 4096 {
        4096
    } else {
        s
    }
}

/// The bin a padded request size is served from, or `None` when it exceeds
/// the largest class and must go to the page allocator.
pub fn bin_index(padded: usize) -> (r: Option<usize>)
    ensures
        padded <= CHUNK_SIZE ==> r == Some(spec_bin_index(padded as int) as usize),
        padded > CHUNK_SIZE ==> r is None,
{
    if padded > CHUNK_SIZE {
        return None;
    }
    let r: usize = if padded <= 4 {
        0
    } else if padded <= 8 {
        1
    } else if padded <= 16 {
        2
    } else if padded <= 32 {
        3
    } else if padded <= 64 {
        4
    } else if padded <= 128 {
        5
    } else if padded <= 256 {
        6
    } else if padded <= 512 {
        7
    } else if padded <= 1024 {
        8
    } else if padded <= 2048 {
        9
    } else if padded <= 4096 {
        10
    } else if padded <= 8192 {
        11
    } else if padded <= 16384 {
        12
    } else if padded <= 32768 {
        13
    } else {
        14
    };
    Some(r)
}

} // verus!
