//! The map from names to values.

use rusty_proxy::sync_map::SyncMap;

fn key(k: &str) -> String {
    k.to_string()
}

fn get(m: &mut SyncMap<u32>, k: &str) -> Option<u32> {
    m.load(&key(k)).map(|v| *v)
}

fn sorted(m: &mut SyncMap<u32>) -> Vec<(String, u32)> {
    let mut pairs: Vec<(String, u32)> =
        m.key_values().into_iter().map(|(k, v)| ((*k).clone(), *v)).collect();
    pairs.sort();
    pairs
}

#[test]
fn empty_map_finds_nothing() {
    let mut m = SyncMap::new();
    assert_eq!(get(&mut m, "a"), None);
    assert!(m.keys().is_empty());
    assert!(m.values().is_empty());
    assert!(m.key_values().is_empty());
}

#[test]
fn stored_values_are_found() {
    let mut m = SyncMap::new();
    m.store(key("a"), 1);
    m.store(key("b"), 2);
    assert_eq!(get(&mut m, "a"), Some(1));
    assert_eq!(get(&mut m, "b"), Some(2));
    assert_eq!(get(&mut m, "c"), None);
    m.store(key("a"), 3);
    assert_eq!(get(&mut m, "a"), Some(3));
    assert_eq!(get(&mut m, "b"), Some(2));
}

#[test]
fn lookups_do_not_change_the_map() {
    let mut m = SyncMap::new();
    for i in 0..10u32 {
        m.store(format!("k{}", i), i);
    }
    for _ in 0..30 {
        assert_eq!(get(&mut m, "missing"), None);
        for i in 0..10u32 {
            assert_eq!(get(&mut m, &format!("k{}", i)), Some(i));
        }
    }
    assert_eq!(sorted(&mut m).len(), 10);
}

#[test]
fn deleted_keys_are_gone_and_come_back() {
    let mut m = SyncMap::new();
    m.store(key("a"), 1);
    m.store(key("b"), 2);
    assert_eq!(m.load_and_delete(&key("a")).map(|v| *v), Some(1));
    assert!(m.load_and_delete(&key("a")).is_none());
    assert_eq!(get(&mut m, "a"), None);
    assert_eq!(get(&mut m, "b"), Some(2));
    m.delete(&key("b"));
    m.delete(&key("b"));
    assert_eq!(get(&mut m, "b"), None);
    m.store(key("a"), 5);
    assert_eq!(get(&mut m, "a"), Some(5));
    assert_eq!(sorted(&mut m), vec![(key("a"), 5)]);
}

#[test]
fn deleted_key_survives_a_change_of_parts() {
    let mut m = SyncMap::new();
    m.store(key("a"), 1);
    m.store(key("b"), 2);
    assert_eq!(m.keys().len(), 2);
    m.delete(&key("a"));
    m.store(key("c"), 3);
    assert_eq!(get(&mut m, "a"), None);
    m.store(key("a"), 4);
    assert_eq!(sorted(&mut m), vec![(key("a"), 4), (key("b"), 2), (key("c"), 3)]);
    m.delete(&key("c"));
    m.store(key("d"), 6);
    assert_eq!(sorted(&mut m), vec![(key("a"), 4), (key("b"), 2), (key("d"), 6)]);
}

#[test]
fn load_or_store_keeps_the_first_value() {
    let mut m = SyncMap::new();
    assert_eq!(m.load_or_store(key("a"), 1).map(|v| *v), Some(1));
    assert_eq!(m.load_or_store(key("a"), 2).map(|v| *v), Some(1));
    assert_eq!(get(&mut m, "a"), Some(1));
    assert_eq!(m.load_or_store(key("a"), 3).map(|v| *v), Some(1));
}

#[test]
fn load_or_store_reports_nothing_for_a_listed_deleted_key() {
    let mut m = SyncMap::new();
    m.store(key("a"), 1);
    assert_eq!(m.keys().len(), 1);
    m.delete(&key("a"));
    assert!(m.load_or_store(key("a"), 2).is_none());
    assert_eq!(get(&mut m, "a"), Some(2));
    m.delete(&key("a"));
    m.store(key("b"), 3);
    assert!(m.load_or_store(key("a"), 4).is_none());
    assert_eq!(sorted(&mut m), vec![(key("a"), 4), (key("b"), 3)]);
}

#[test]
fn listings_agree() {
    let mut m = SyncMap::new();
    for i in 0..5u32 {
        m.store(format!("k{}", i), i);
    }
    m.delete(&key("k2"));
    let mut keys: Vec<String> = m.keys().into_iter().map(|k| (*k).clone()).collect();
    keys.sort();
    assert_eq!(keys, vec!["k0", "k1", "k3", "k4"]);
    let mut values: Vec<u32> = m.values().into_iter().map(|v| *v).collect();
    values.sort();
    assert_eq!(values, vec![0, 1, 3, 4]);
}

#[test]
fn long_history_matches_a_plain_map() {
    let mut m = SyncMap::new();
    let mut plain = std::collections::BTreeMap::new();
    let mut x: u32 = 12345;
    for _ in 0..4000 {
        x = x.wrapping_mul(1103515245).wrapping_add(12345);
        let k = format!("k{}", (x >> 16) % 7);
        match (x >> 24) % 6 {
            0 | 1 => {
                m.store(k.clone(), x);
                plain.insert(k, x);
            }
            2 => assert_eq!(m.load(&k).map(|v| *v), plain.get(&k).copied()),
            3 => assert_eq!(m.load_and_delete(&k).map(|v| *v), plain.remove(&k)),
            4 => {
                let had = plain.get(&k).copied();
                let got = m.load_or_store(k.clone(), x).map(|v| *v);
                match had {
                    Some(v) => assert_eq!(got, Some(v)),
                    None => {
                        assert!(got.is_none() || got == Some(x));
                        plain.insert(k, x);
                    }
                }
            }
            _ => {
                let want: Vec<(String, u32)> = plain.clone().into_iter().collect();
                assert_eq!(sorted(&mut m), want);
            }
        }
    }
}
