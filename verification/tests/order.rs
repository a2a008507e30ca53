use kibo::order::{ascending, descending};
use kibo::table::{code_of, Table};

#[test]
fn orders_are_stable() {
    let keys: Vec<u128> = vec![5, 1, 5, 3, 1, 0, u128::MAX, 3];
    assert_eq!(ascending(&keys), vec![5, 1, 4, 3, 7, 0, 2, 6]);
    assert_eq!(descending(&keys), vec![6, 0, 2, 3, 7, 1, 4, 5]);
    assert!(ascending(&vec![]).is_empty());
    assert!(descending(&vec![]).is_empty());
    assert_eq!(ascending(&vec![7]), vec![0]);
    assert_eq!(descending(&vec![7, 7, 7]), vec![0, 1, 2]);
    assert_eq!(ascending(&vec![7, 7, 7]), vec![0, 1, 2]);
}

#[test]
fn orders_agree_with_a_stable_sort() {
    let mut x: u64 = 0x2545F4914F6CDD1D;
    let mut keys: Vec<u128> = Vec::new();
    for _ in 0..300 {
        x ^= x << 13;
        x ^= x >> 7;
        x ^= x << 17;
        keys.push((x % 17) as u128);
    }
    let mut up: Vec<usize> = (0..keys.len()).collect();
    up.sort_by_key(|&i| keys[i]);
    assert_eq!(ascending(&keys), up);
    let mut down: Vec<usize> = (0..keys.len()).collect();
    down.sort_by(|&a, &b| keys[b].cmp(&keys[a]));
    assert_eq!(descending(&keys), down);
}

#[test]
fn a_table_keeps_the_order_of_insertion() {
    let mut table: Table<u32> = Table::new();
    assert!(table.is_empty());
    assert_eq!(table.len(), 0);
    assert_eq!(table.get("a"), None);
    table.insert("b".to_string(), 1);
    table.insert("a".to_string(), 2);
    table.insert("c".to_string(), 3);
    table.insert("a".to_string(), 4);
    assert_eq!(table.len(), 3);
    assert!(!table.is_empty());
    assert_eq!(table.keys, vec!["b", "a", "c"]);
    assert_eq!(table.values, vec![1, 4, 3]);
    assert_eq!(table.get("a"), Some(&4));
    assert_eq!(table.get("c"), Some(&3));
    assert_eq!(table.get("d"), None);
    assert_eq!(table.get(""), None);
    assert_eq!(table.position("c"), Some(2));
    assert_eq!(table.position("x"), None);
    assert!(table.contains_key("b"));
    assert!(!table.contains_key("B"));
    assert_eq!(table.key(1), "a");
    assert_eq!(*table.value(1), 4);
}

#[test]
fn a_table_finds_each_of_many_keys() {
    let mut table: Table<usize> = Table::new();
    let n = 20000;
    for i in 0..n {
        table.insert(format!("dir{}/sub/file{}.o", i % 97, i), i);
    }
    table.insert("".to_string(), n);
    assert_eq!(table.len(), n + 1);
    for i in (0..n).step_by(7) {
        assert_eq!(table.get(&format!("dir{}/sub/file{}.o", i % 97, i)), Some(&i));
        assert_eq!(table.get(&format!("dir{}/sub/file{}.x", i % 97, i)), None);
    }
    assert_eq!(table.get(""), Some(&n));
    for i in 0..n {
        table.insert(format!("dir{}/sub/file{}.o", i % 97, i), i + 1);
    }
    assert_eq!(table.len(), n + 1);
    assert_eq!(table.get("dir5/sub/file5.o"), Some(&6));
}

#[test]
fn equal_texts_have_equal_codes() {
    assert_eq!(code_of(""), 0);
    assert_eq!(code_of("a"), 97);
    assert_eq!(code_of("ab"), 97 * 31 + 98);
    assert_eq!(code_of("src/a.txt"), code_of(&"src/a.txt".to_string()));
    assert!(code_of(&"z".repeat(1000)) < 0x1FFF_FFFF_FFFF_FFFF);
    assert!(code_of(&"\u{10ffff}".repeat(1000)) < 0x1FFF_FFFF_FFFF_FFFF);
}
