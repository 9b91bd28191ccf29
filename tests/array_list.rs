use gk_types_rs::allocator::{global_heap_allocator, AllocErr};
use gk_types_rs::array_list::ArrayList;

fn u32_list(values: &[u32]) -> ArrayList<u32> {
    let mut list: ArrayList<u32> = ArrayList::new(&global_heap_allocator());
    for v in values {
        list.push(*v).unwrap();
    }
    list
}

#[test]
fn new_list_of_small_type_is_inline() {
    let list: ArrayList<u32> = ArrayList::new(&global_heap_allocator());
    assert_eq!(list.len(), 0);
    assert_eq!(list.capacity(), 16 / std::mem::size_of::<u32>());
    assert!(list.is_small_rep());
}

#[test]
fn new_list_of_large_type_has_no_capacity() {
    let list: ArrayList<String> = ArrayList::new(&global_heap_allocator());
    assert_eq!(list.len(), 0);
    assert_eq!(list.capacity(), 0);
    assert!(!list.is_small_rep());
}

#[test]
fn default_list_matches_new() {
    let list: ArrayList<u16> = ArrayList::default();
    assert_eq!(list.len(), 0);
    assert_eq!(list.capacity(), 8);
}

#[test]
fn inline_to_heap_promotion() {
    let mut list: ArrayList<u32> = ArrayList::new(&global_heap_allocator());
    assert_eq!(list.capacity(), 4);
    for v in [10u32, 20, 30, 40, 50] {
        list.push(v).unwrap();
    }
    assert_eq!(list.len(), 5);
    assert!(list.capacity() >= 16);
    assert_eq!(list.capacity(), 16);
    assert!(!list.is_small_rep());
    assert_eq!(list.as_slice(), &[10, 20, 30, 40, 50]);
    for (i, v) in [10u32, 20, 30, 40, 50].iter().enumerate() {
        assert_eq!(list.get(i), v);
    }
}

#[test]
fn stays_inline_while_within_inline_capacity() {
    let mut list: ArrayList<u32> = ArrayList::new(&global_heap_allocator());
    for v in 0..4u32 {
        list.push(v).unwrap();
        assert!(list.is_small_rep());
    }
    list.remove(0);
    list.insert(0, 7).unwrap();
    list.swap_remove(1);
    list.reserve(1).unwrap();
    list.reserve_exact(1).unwrap();
    assert!(list.is_small_rep());
    assert_eq!(list.capacity(), 4);
    list.push(1).unwrap();
    list.push(2).unwrap();
    assert!(!list.is_small_rep());
}

#[test]
fn non_simd_type_starts_empty_and_finds() {
    let mut list: ArrayList<String> = ArrayList::new(&global_heap_allocator());
    assert_eq!(std::mem::size_of::<String>(), 24);
    assert_eq!(list.capacity(), 0);
    list.push(String::from("hello")).unwrap();
    assert!(!list.is_small_rep());
    assert_eq!(list.capacity(), 2);
    assert_eq!(list.find(&String::from("hello")), Some(0));
    assert_eq!(list.find(&String::from("world")), None);
}

#[test]
fn growth_policy_on_non_simd_type() {
    let mut list: ArrayList<String> = ArrayList::new(&global_heap_allocator());
    let mut seen = Vec::new();
    for i in 0..16 {
        list.push(i.to_string()).unwrap();
        if seen.last() != Some(&list.capacity()) {
            seen.push(list.capacity());
        }
    }
    assert_eq!(seen, vec![2, 5, 9, 15, 24]);
    for pair in seen.windows(2) {
        let c = pair[0];
        assert!(pair[1] >= (3 * (c + 1) + 1) / 2);
    }
}

#[test]
fn growth_rounds_to_lane_stride() {
    let mut bytes: ArrayList<u8> = ArrayList::new(&global_heap_allocator());
    let mut halves: ArrayList<u16> = ArrayList::new(&global_heap_allocator());
    let mut words: ArrayList<u64> = ArrayList::new(&global_heap_allocator());
    for i in 0..300u32 {
        bytes.push(i as u8).unwrap();
        halves.push(i as u16).unwrap();
        words.push(i as u64).unwrap();
        if !bytes.is_small_rep() {
            assert_eq!(bytes.capacity() % 64, 0);
        }
        if !halves.is_small_rep() {
            assert_eq!(halves.capacity() % 32, 0);
        }
        if !words.is_small_rep() {
            assert_eq!(words.capacity() % 8, 0);
        }
        assert!(bytes.len() <= bytes.capacity());
        assert!(halves.len() <= halves.capacity());
        assert!(words.len() <= words.capacity());
    }
}

#[test]
fn capacity_never_falls_under_push_and_reserve() {
    let mut list: ArrayList<u32> = ArrayList::new(&global_heap_allocator());
    let mut last = list.capacity();
    for i in 0..100u32 {
        if i % 7 == 0 {
            list.reserve((i % 13) as usize).unwrap();
        } else {
            list.push(i).unwrap();
        }
        assert!(list.capacity() >= last);
        last = list.capacity();
    }
}

#[test]
fn length_within_capacity_through_mixed_operations() {
    let mut list: ArrayList<u64> = ArrayList::new(&global_heap_allocator());
    for i in 0..50u64 {
        list.push(i).unwrap();
        assert!(list.len() <= list.capacity());
    }
    for i in 0..10usize {
        list.insert(i, 1000 + i as u64).unwrap();
        assert!(list.len() <= list.capacity());
    }
    for i in 0..20usize {
        if i % 2 == 0 {
            list.remove(i);
        } else {
            list.swap_remove(i);
        }
        assert!(list.len() <= list.capacity());
    }
    assert_eq!(list.len(), 40);
}

#[test]
fn with_capacity_examples() {
    let a: ArrayList<u32> = ArrayList::with_capacity(&global_heap_allocator(), 10).unwrap();
    assert!(a.capacity() >= 10);
    assert_eq!(a.capacity(), 16);
    let b: ArrayList<u32> = ArrayList::with_capacity(&global_heap_allocator(), 3).unwrap();
    assert_eq!(b.capacity(), 4);
    assert!(b.is_small_rep());
    let c: ArrayList<u32> = ArrayList::with_capacity(&global_heap_allocator(), 0).unwrap();
    assert_eq!(c.capacity(), 4);
    let d: ArrayList<String> = ArrayList::with_capacity(&global_heap_allocator(), 25).unwrap();
    assert_eq!(d.capacity(), 25);
    let e: ArrayList<usize> = ArrayList::with_capacity(&global_heap_allocator(), 100).unwrap();
    assert_eq!(e.capacity(), 104);
}

#[test]
fn with_capacity_beyond_limit_is_out_of_memory() {
    let r: Result<ArrayList<u32>, AllocErr> =
        ArrayList::with_capacity(&global_heap_allocator(), usize::MAX);
    assert!(matches!(r, Err(AllocErr::OutOfMemory)));
}

#[test]
fn reserve_beyond_limit_is_out_of_memory_and_keeps_list() {
    let mut list = u32_list(&[1, 2, 3]);
    let cap = list.capacity();
    assert_eq!(list.reserve(usize::MAX), Err(AllocErr::OutOfMemory));
    assert_eq!(list.reserve_exact(usize::MAX - 1), Err(AllocErr::OutOfMemory));
    assert_eq!(list.capacity(), cap);
    assert_eq!(list.as_slice(), &[1, 2, 3]);
    assert!(list.is_small_rep());
}

#[test]
fn reserve_examples() {
    let mut a: ArrayList<u32> = ArrayList::new(&global_heap_allocator());
    a.reserve(10).unwrap();
    assert_eq!(a.capacity(), 16);
    let mut b = u32_list(&[1]);
    b.reserve(10).unwrap();
    assert!(b.capacity() >= 11);
    let mut c: ArrayList<String> = ArrayList::new(&global_heap_allocator());
    c.reserve(1).unwrap();
    assert_eq!(c.capacity(), 2);
    c.reserve(10).unwrap();
    assert_eq!(c.capacity(), 10);
}

#[test]
fn reserve_exact_examples() {
    let mut a: ArrayList<String> = ArrayList::new(&global_heap_allocator());
    a.reserve_exact(10).unwrap();
    assert_eq!(a.capacity(), 10);
    let mut b = u32_list(&[1]);
    b.reserve_exact(10).unwrap();
    assert_eq!(b.capacity(), 16);
}

#[test]
fn second_smaller_reserve_keeps_capacity() {
    let mut list: ArrayList<String> = ArrayList::new(&global_heap_allocator());
    list.push(String::from("a")).unwrap();
    list.reserve(40).unwrap();
    let cap = list.capacity();
    for m in 0..=40 {
        list.reserve(m).unwrap();
        assert_eq!(list.capacity(), cap);
    }
}

#[test]
fn shrink_to_fit_rounds_to_stride() {
    let mut list: ArrayList<usize> = ArrayList::with_capacity(&global_heap_allocator(), 100).unwrap();
    assert!(list.capacity() >= 100);
    for i in 0..5 {
        list.push(i).unwrap();
    }
    list.shrink_to_fit();
    assert_eq!(list.capacity(), 8);
    assert_eq!(list.as_slice(), &[0, 1, 2, 3, 4]);
}

#[test]
fn shrink_to_fit_non_simd_type() {
    let mut list: ArrayList<String> = ArrayList::with_capacity(&global_heap_allocator(), 100).unwrap();
    for i in 0..5 {
        list.push(i.to_string()).unwrap();
    }
    list.shrink_to_fit();
    assert_eq!(list.capacity(), 5);
}

#[test]
fn shrink_to_fit_is_idempotent() {
    let mut list = u32_list(&(0..40).collect::<Vec<u32>>());
    list.reserve(500).unwrap();
    list.shrink_to_fit();
    let cap = list.capacity();
    assert_eq!(cap, 48);
    list.shrink_to_fit();
    assert_eq!(list.capacity(), cap);
    assert_eq!(list.len(), 40);
}

#[test]
fn shrink_to_fit_never_returns_inline() {
    let mut list = u32_list(&[1, 2, 3, 4, 5]);
    list.truncate(1);
    list.shrink_to_fit();
    assert!(!list.is_small_rep());
    assert_eq!(list.capacity(), 16);
}

#[test]
fn shrink_to_examples() {
    let mut a: ArrayList<usize> = ArrayList::with_capacity(&global_heap_allocator(), 100).unwrap();
    for i in 0..5 {
        a.push(i).unwrap();
    }
    a.shrink_to(50);
    assert!(a.capacity() >= 50 && a.capacity() < 100);
    assert_eq!(a.capacity(), 56);
    let mut b: ArrayList<String> = ArrayList::with_capacity(&global_heap_allocator(), 100).unwrap();
    for i in 0..5 {
        b.push(i.to_string()).unwrap();
    }
    b.shrink_to(50);
    assert_eq!(b.capacity(), 50);
    b.shrink_to(200);
    assert_eq!(b.capacity(), 50);
    b.shrink_to(2);
    assert_eq!(b.capacity(), 5);
}

#[test]
fn remove_shifts_down() {
    let mut list: ArrayList<String> = ArrayList::new(&global_heap_allocator());
    for i in 0..3 {
        list.push(i.to_string()).unwrap();
    }
    assert_eq!(list.remove(1), "1");
    assert_eq!(list.as_slice(), &[String::from("0"), String::from("2")]);
}

#[test]
fn insert_shifts_up() {
    let mut list: ArrayList<String> = ArrayList::new(&global_heap_allocator());
    list.push(String::from("world")).unwrap();
    list.insert(0, String::from("hello")).unwrap();
    assert_eq!(list.get(0), "hello");
    assert_eq!(list.get(1), "world");
}

#[test]
fn swap_remove_moves_last_into_place() {
    let mut list = u32_list(&[10, 11, 12]);
    assert_eq!(list.swap_remove(1), 11);
    assert_eq!(list.as_slice(), &[10, 12]);
}

#[test]
fn swap_remove_last_keeps_order() {
    let mut list = u32_list(&[5, 6, 7, 8, 9, 10]);
    assert_eq!(list.swap_remove(5), 10);
    assert_eq!(list.as_slice(), &[5, 6, 7, 8, 9]);
}

#[test]
fn push_then_swap_remove_last_restores() {
    let mut list = u32_list(&[3, 1, 4, 1, 5]);
    let before = list.as_slice().to_vec();
    list.push(9).unwrap();
    assert_eq!(list.swap_remove(list.len() - 1), 9);
    assert_eq!(list.as_slice(), &before[..]);
}

#[test]
fn insert_then_remove_restores() {
    let mut list = u32_list(&[3, 1, 4, 1, 5, 9, 2, 6]);
    let before = list.as_slice().to_vec();
    for i in 0..before.len() {
        list.insert(i, 42).unwrap();
        assert_eq!(list.remove(i), 42);
        assert_eq!(list.as_slice(), &before[..]);
    }
}

#[test]
fn truncate_and_set_len() {
    let mut list = u32_list(&[1, 2, 3, 4, 5, 6]);
    let cap = list.capacity();
    list.truncate(10);
    assert_eq!(list.len(), 6);
    list.truncate(4);
    assert_eq!(list.as_slice(), &[1, 2, 3, 4]);
    list.set_len(2);
    assert_eq!(list.as_slice(), &[1, 2]);
    assert_eq!(list.capacity(), cap);
}

#[test]
fn retain_keeps_matching_in_order() {
    let mut list = u32_list(&(0..20).collect::<Vec<u32>>());
    list.retain(|x| x % 3 == 0);
    assert_eq!(list.as_slice(), &[0, 3, 6, 9, 12, 15, 18]);
    list.retain(|_| false);
    assert_eq!(list.len(), 0);
}

#[test]
fn iter_yields_in_order() {
    let list = u32_list(&[1, 2, 3, 4]);
    let mut it = list.iter();
    let mut out = Vec::new();
    while let Some(x) = it.next() {
        out.push(*x);
    }
    assert_eq!(out, vec![1, 2, 3, 4]);
    assert!(it.next().is_none());
}

#[test]
fn find_examples() {
    let list = u32_list(&(0..100).collect::<Vec<u32>>());
    assert_eq!(list.find(&80), Some(80));
    assert_eq!(list.find(&101), None);
    let empty: ArrayList<u32> = ArrayList::new(&global_heap_allocator());
    assert_eq!(empty.find(&0), None);
}

#[test]
fn allocator_is_kept() {
    let alloc = global_heap_allocator();
    let list: ArrayList<u8> = ArrayList::new(&alloc);
    let _copy = *list.allocator();
}

#[test]
fn set_replaces_one_element() {
    let mut list = u32_list(&[1, 2, 3]);
    list.set(1, 20);
    assert_eq!(list.as_slice(), &[1, 20, 3]);
    assert_eq!(list.capacity(), 4);
}

#[test]
fn shrinking_leaves_inline_list_inline() {
    let mut bytes: ArrayList<u8> = ArrayList::new(&global_heap_allocator());
    bytes.shrink_to_fit();
    assert!(bytes.is_small_rep());
    assert_eq!(bytes.capacity(), 16);
    bytes.shrink_to(0);
    assert!(bytes.is_small_rep());
    assert_eq!(bytes.capacity(), 16);

    let mut triples: ArrayList<[u8; 3]> = ArrayList::new(&global_heap_allocator());
    triples.push([1, 2, 3]).unwrap();
    triples.push([4, 5, 6]).unwrap();
    let cap = triples.capacity();
    triples.shrink_to_fit();
    triples.shrink_to(1);
    assert!(triples.is_small_rep());
    assert_eq!(triples.capacity(), cap);
    assert_eq!(triples.as_slice(), &[[1, 2, 3], [4, 5, 6]]);
}

#[test]
fn push_below_inline_capacity_keeps_inline_capacity() {
    let mut list: ArrayList<u16> = ArrayList::new(&global_heap_allocator());
    for i in 0..8u16 {
        list.push(i).unwrap();
        assert!(list.is_small_rep());
        assert_eq!(list.capacity(), 8);
    }
}
