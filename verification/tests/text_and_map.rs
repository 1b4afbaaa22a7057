use crashlab_core::str_map::StrMap;
use crashlab_core::text::decimal_string;

#[test]
fn decimal_rendering() {
    assert_eq!(decimal_string(0), "0");
    assert_eq!(decimal_string(7), "7");
    assert_eq!(decimal_string(10), "10");
    assert_eq!(decimal_string(256), "256");
    assert_eq!(decimal_string(u64::MAX), u64::MAX.to_string());
}

#[test]
fn str_map_insert_and_lookup() {
    let mut m: StrMap<u32> = StrMap::new();
    assert!(m.is_empty());
    m.insert("a".to_string(), 1);
    m.insert("b".to_string(), 2);
    assert_eq!(m.len(), 2);
    assert_eq!(m.get("a"), Some(&1));
    assert!(m.contains_key("b"));
    assert!(!m.contains_key("c"));
    m.insert("a".to_string(), 5);
    assert_eq!(m.len(), 2);
    assert_eq!(m.get("a"), Some(&5));
    assert_eq!(m.key_at(0), "a");
    assert_eq!(*m.value_at(1), 2);
    let c = m.clone();
    assert_eq!(c, m);
}

#[test]
fn str_map_equality_ignores_order() {
    let mut a: StrMap<u32> = StrMap::new();
    a.insert("x".to_string(), 1);
    a.insert("y".to_string(), 2);
    let mut b: StrMap<u32> = StrMap::new();
    b.insert("y".to_string(), 2);
    b.insert("x".to_string(), 1);
    assert_eq!(a, b);
    b.insert("y".to_string(), 3);
    assert_ne!(a, b);
    let mut c: StrMap<u32> = StrMap::new();
    c.insert("x".to_string(), 1);
    assert_ne!(a, c);
    assert_ne!(c, a);
    let mut d: StrMap<u32> = StrMap::new();
    d.insert("x".to_string(), 1);
    d.insert("z".to_string(), 2);
    assert_ne!(a, d);
}
