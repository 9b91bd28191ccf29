use gk_types_rs::allocator::global_heap_allocator;
use gk_types_rs::array_list::ArrayList;
use gk_types_rs::simd::{lane_mask, select_kernel, simd_find, SimdKernel};

const KERNELS: [SimdKernel; 2] = [SimdKernel::Lanes512, SimdKernel::Lanes256];

#[test]
fn simd_find_hit_in_live_region() {
    for kernel in KERNELS {
        let mut list: ArrayList<u32> = ArrayList::new(&global_heap_allocator());
        for i in 0..200u32 {
            list.push(i).unwrap();
        }
        assert_eq!(list.find_simd(&137, kernel), Some(137));
        assert_eq!(list.find_simd(&999, kernel), None);
        list.set_len(100);
        assert_eq!(list.find_simd(&137, kernel), None);
        assert_eq!(list.find_simd(&99, kernel), Some(99));
    }
}

#[test]
fn find_simd_on_bytes_and_words() {
    for kernel in KERNELS {
        let mut bytes: ArrayList<u8> = ArrayList::new(&global_heap_allocator());
        let mut words: ArrayList<usize> = ArrayList::new(&global_heap_allocator());
        for i in 0..100 {
            bytes.push(i as u8).unwrap();
            words.push(i).unwrap();
        }
        assert_eq!(bytes.find_simd(&80, kernel), Some(80));
        assert_eq!(words.len(), 100);
        let mut longs: ArrayList<u64> = ArrayList::new(&global_heap_allocator());
        for i in 0..100u64 {
            longs.push(i).unwrap();
        }
        assert_eq!(longs.find_simd(&80, kernel), Some(80));
    }
}

fn check_agreement<T: gk_types_rs::simd::SimdElement + Copy + std::fmt::Debug>(values: &[T], probes: &[T]) {
    for kernel in KERNELS {
        let mut list: ArrayList<T> = ArrayList::new(&global_heap_allocator());
        for v in values {
            list.push(*v).unwrap();
            for p in probes {
                assert_eq!(list.find(p), list.find_simd(p, kernel));
            }
        }
    }
}

#[test]
fn find_and_find_simd_agree() {
    let bytes: Vec<u8> = (0..300u32).map(|i| ((i * 37) % 17) as u8).collect();
    check_agreement(&bytes, &[0, 5, 16, 17, 200]);
    let halves: Vec<i16> = (0..150i16).map(|i| (i * 7) % 23 - 11).collect();
    check_agreement(&halves, &[-11, 0, 11, 12, 100]);
    let words: Vec<i32> = (0..90i32).map(|i| (i * 5) % 31).collect();
    check_agreement(&words, &[0, 30, 31, -1]);
    let longs: Vec<u64> = (0..70u64).map(|i| (i * 3) % 19).collect();
    check_agreement(&longs, &[0, 18, 19]);
}

#[test]
fn find_simd_first_of_duplicates() {
    for kernel in KERNELS {
        let mut list: ArrayList<u16> = ArrayList::new(&global_heap_allocator());
        for i in 0..100u16 {
            list.push(i % 10).unwrap();
        }
        assert_eq!(list.find_simd(&7, kernel), Some(7));
        assert_eq!(list.find_simd(&0, kernel), Some(0));
    }
}

#[test]
fn find_simd_on_inline_list_scans() {
    let mut list: ArrayList<u32> = ArrayList::new(&global_heap_allocator());
    list.push(4).unwrap();
    list.push(8).unwrap();
    assert!(list.is_small_rep());
    assert_eq!(list.find_simd(&8, SimdKernel::Lanes512), Some(1));
    assert_eq!(list.find_simd(&5, SimdKernel::Lanes256), None);
}

#[test]
fn kernel_selection_prefers_wider_lanes() {
    assert_eq!(select_kernel(true, true), Some(SimdKernel::Lanes512));
    assert_eq!(select_kernel(true, false), Some(SimdKernel::Lanes512));
    assert_eq!(select_kernel(false, true), Some(SimdKernel::Lanes256));
    assert_eq!(select_kernel(false, false), None);
}

#[test]
fn kernel_lane_counts() {
    assert_eq!(SimdKernel::Lanes512.lane_bytes(), 64);
    assert_eq!(SimdKernel::Lanes256.lane_bytes(), 32);
    assert_eq!(SimdKernel::Lanes512.lanes::<u8>(), 64);
    assert_eq!(SimdKernel::Lanes256.lanes::<u32>(), 8);
    assert_eq!(SimdKernel::Lanes256.lanes::<u64>(), 4);
}

#[test]
fn lane_mask_marks_matching_lanes() {
    let data: Vec<u8> = vec![1, 2, 1, 3, 1, 9];
    assert_eq!(lane_mask(&data, 0, 6, &1), 0b010101);
    assert_eq!(lane_mask(&data, 1, 5, &1), 0b1010);
    assert_eq!(lane_mask(&data, 0, 6, &7), 0);
}

#[test]
fn kernel_returns_lowest_lane_of_first_block() {
    let data: Vec<u32> = (0..40).map(|i| i % 12).collect();
    assert_eq!(simd_find(&data, 8, &11), Some(11));
    assert_eq!(simd_find(&data, 8, &3), Some(3));
    assert_eq!(simd_find(&data, 16, &40), None);
    let empty: Vec<u32> = Vec::new();
    assert_eq!(simd_find(&empty, 4, &0), None);
}
