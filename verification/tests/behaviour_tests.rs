use ordered_map::OrderedMap;
use std::collections::BTreeMap;

/// A fixed sequence of numbers that looks shuffled.
fn scrambled(n: u64) -> Vec<u64> {
    let mut out: Vec<u64> = Vec::new();
    let mut x: u64 = 12345;
    for _ in 0..n {
        x = x.wrapping_mul(6364136223846793005).wrapping_add(1442695040888963407);
        out.push((x >> 33) % 1000);
    }
    out
}

fn keys_of(om: &OrderedMap<u64, u64>) -> Vec<u64> {
    om.keys().into_iter().copied().collect()
}

fn agrees(om: &OrderedMap<u64, u64>, model: &BTreeMap<u64, u64>) {
    assert_eq!(om.size(), model.len());
    assert_eq!(om.is_empty(), model.is_empty());
    assert_eq!(keys_of(om), model.keys().copied().collect::<Vec<u64>>());
    assert_eq!(om.min(), model.keys().next());
    assert_eq!(om.max(), model.keys().next_back());
    for (k, v) in model {
        assert_eq!(om.get(*k), Some(v));
    }
}

#[test]
fn test_empty_map_has_no_extremes() {
    let om: OrderedMap<i32, String> = OrderedMap::new();
    assert!(om.is_empty());
    assert_eq!(om.size(), 0);
    assert_eq!(om.min(), None);
    assert_eq!(om.max(), None);
    assert!(om.keys().is_empty());
    assert!(om.get(7).is_none());
}

#[test]
fn test_insert_three_then_delete_each() {
    let mut om: OrderedMap<i32, String> = OrderedMap::new();
    om.put(1, "one".to_string());
    om.put(2, "two".to_string());
    om.put(3, "three".to_string());
    assert_eq!(om.size(), 3);
    assert_eq!(om.get(2).unwrap(), "two");
    om.delete(2);
    assert_eq!(om.get(2), None);
    assert_eq!(om.size(), 2);
    om.delete(4);
    assert_eq!(om.size(), 2);
    om.delete(1);
    om.delete(3);
    assert!(om.is_empty());
}

#[test]
fn test_string_keys_come_out_in_lexical_order() {
    let mut om: OrderedMap<String, i32> = OrderedMap::new();
    om.put("one".to_string(), 1);
    om.put("two".to_string(), 2);
    om.put("three".to_string(), 3);
    let keys: Vec<String> = om.keys().into_iter().cloned().collect();
    assert_eq!(keys, vec!["one".to_string(), "three".to_string(), "two".to_string()]);
}

#[test]
fn test_keys_ascend_without_duplicates() {
    let mut om: OrderedMap<u64, u64> = OrderedMap::new();
    for k in scrambled(300) {
        om.put(k, k + 1);
    }
    for k in scrambled(100) {
        om.delete(k);
    }
    let keys = keys_of(&om);
    for pair in keys.windows(2) {
        assert!(pair[0] < pair[1]);
    }
}

#[test]
fn test_size_is_number_of_keys() {
    let mut om: OrderedMap<u64, u64> = OrderedMap::new();
    assert_eq!(om.size(), om.keys().len());
    for (i, k) in scrambled(200).into_iter().enumerate() {
        if i % 3 == 2 {
            om.delete(k);
        } else {
            om.put(k, 0);
        }
        assert_eq!(om.size(), om.keys().len());
    }
}

#[test]
fn test_put_then_get_round_trip() {
    let mut om: OrderedMap<u64, u64> = OrderedMap::new();
    om.put(42, 4200);
    for k in scrambled(200) {
        if k != 42 {
            om.put(k, k);
        }
    }
    for k in scrambled(50) {
        if k != 42 {
            om.delete(k);
        }
    }
    assert_eq!(om.get(42), Some(&4200));
}

#[test]
fn test_delete_of_absent_key_changes_nothing() {
    let mut om: OrderedMap<u64, u64> = OrderedMap::new();
    for k in [5u64, 3, 8, 1, 4] {
        om.put(k, k * 10);
    }
    om.delete(7);
    assert_eq!(om.size(), 5);
    assert_eq!(keys_of(&om), vec![1u64, 3, 4, 5, 8]);
    for k in [5u64, 3, 8, 1, 4] {
        assert_eq!(om.get(k), Some(&(k * 10)));
    }
    let mut empty: OrderedMap<u64, u64> = OrderedMap::new();
    empty.delete(1);
    assert!(empty.is_empty());
}

#[test]
fn test_second_put_overwrites() {
    let mut om: OrderedMap<u64, String> = OrderedMap::new();
    om.put(1, "a".to_string());
    om.put(2, "b".to_string());
    let before = om.size();
    om.put(2, "c".to_string());
    assert_eq!(om.get(2).unwrap(), "c");
    assert_eq!(om.size(), before);
    assert_eq!(om.size(), 2);
}

#[test]
fn test_min_and_max() {
    let mut om: OrderedMap<u64, u64> = OrderedMap::new();
    for k in [50u64, 20, 70, 10, 30, 60, 80] {
        om.put(k, 0);
    }
    assert_eq!(om.min(), Some(&10));
    assert_eq!(om.max(), Some(&80));
    om.delete(10);
    om.delete(80);
    assert_eq!(om.min(), Some(&20));
    assert_eq!(om.max(), Some(&70));
}

#[test]
fn test_delete_min_removes_least_key() {
    let mut om: OrderedMap<u64, u64> = OrderedMap::new();
    for k in [50u64, 20, 70, 10, 30, 60, 80] {
        om.put(k, k + 1);
    }
    om.delete_min();
    assert_eq!(om.size(), 6);
    assert_eq!(om.get(10), None);
    assert_eq!(keys_of(&om), vec![20u64, 30, 50, 60, 70, 80]);
    om.delete_min();
    assert_eq!(keys_of(&om), vec![30u64, 50, 60, 70, 80]);
    assert_eq!(om.get(30), Some(&31));
}

#[test]
fn test_delete_max_removes_greatest_key() {
    let mut om: OrderedMap<u64, u64> = OrderedMap::new();
    for k in [50u64, 20, 70, 10, 30, 60, 80] {
        om.put(k, k + 1);
    }
    om.delete_max();
    assert_eq!(om.size(), 6);
    assert_eq!(om.get(80), None);
    assert_eq!(keys_of(&om), vec![10u64, 20, 30, 50, 60, 70]);
    om.delete_max();
    assert_eq!(keys_of(&om), vec![10u64, 20, 30, 50, 60]);
    assert_eq!(om.get(60), Some(&61));
}

#[test]
fn test_delete_min_until_empty() {
    let mut om: OrderedMap<u64, u64> = OrderedMap::new();
    let mut model: BTreeMap<u64, u64> = BTreeMap::new();
    for k in scrambled(150) {
        om.put(k, k);
        model.insert(k, k);
    }
    while !om.is_empty() {
        om.delete_min();
        model.pop_first();
        agrees(&om, &model);
    }
    assert!(model.is_empty());
}

#[test]
fn test_delete_max_until_empty() {
    let mut om: OrderedMap<u64, u64> = OrderedMap::new();
    let mut model: BTreeMap<u64, u64> = BTreeMap::new();
    for k in scrambled(150) {
        om.put(k, k);
        model.insert(k, k);
    }
    while !om.is_empty() {
        om.delete_max();
        model.pop_last();
        agrees(&om, &model);
    }
    assert!(model.is_empty());
}

#[test]
fn test_delete_of_inner_node_keeps_the_other_pairs() {
    let mut om: OrderedMap<u64, String> = OrderedMap::new();
    for k in 1u64..=15 {
        om.put(k, format!("v{}", k));
    }
    om.delete(8);
    om.delete(4);
    om.delete(12);
    assert_eq!(om.size(), 12);
    for k in 1u64..=15 {
        if k == 8 || k == 4 || k == 12 {
            assert_eq!(om.get(k), None);
        } else {
            assert_eq!(om.get(k), Some(&format!("v{}", k)));
        }
    }
}

#[test]
fn test_mixed_operations_agree_with_a_model() {
    let mut om: OrderedMap<u64, u64> = OrderedMap::new();
    let mut model: BTreeMap<u64, u64> = BTreeMap::new();
    for (i, k) in scrambled(2000).into_iter().enumerate() {
        let key: u64 = k % 64;
        match i % 5 {
            0 | 1 | 2 => {
                om.put(key, i as u64);
                model.insert(key, i as u64);
            }
            3 => {
                om.delete(key);
                model.remove(&key);
            }
            _ => {
                if !om.is_empty() {
                    if i % 2 == 0 {
                        om.delete_min();
                        model.pop_first();
                    } else {
                        om.delete_max();
                        model.pop_last();
                    }
                }
            }
        }
        agrees(&om, &model);
    }
}

#[test]
fn test_ascending_and_descending_insertions() {
    let mut up: OrderedMap<u64, u64> = OrderedMap::new();
    let mut down: OrderedMap<u64, u64> = OrderedMap::new();
    for k in 0u64..500 {
        up.put(k, k);
        down.put(499 - k, k);
    }
    let expected: Vec<u64> = (0u64..500).collect();
    assert_eq!(keys_of(&up), expected);
    assert_eq!(keys_of(&down), expected);
    for k in 0u64..500 {
        up.delete(k);
        down.delete(499 - k);
        assert_eq!(up.size() as u64, 499 - k);
        assert_eq!(down.size() as u64, 499 - k);
    }
}
