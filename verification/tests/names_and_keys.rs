use fg_editor::keyed::KeyedMap;
use fg_editor::names::{name_less_or_equal, position_of_name, sort_names};
use fg_editor::unique::{decimal_string, numbered_key_string};

fn s(x: &str) -> String {
    x.to_string()
}

#[test]
fn names_compare_lexicographically() {
    assert!(name_less_or_equal(&s("abc"), &s("abd")));
    assert!(!name_less_or_equal(&s("abd"), &s("abc")));
    assert!(name_less_or_equal(&s("ab"), &s("abc")));
    assert!(!name_less_or_equal(&s("abc"), &s("ab")));
    assert!(name_less_or_equal(&s(""), &s("")));
    assert!(name_less_or_equal(&s("Z"), &s("a")));
    assert!(name_less_or_equal(&s("same"), &s("same")));
}

#[test]
fn sort_names_orders_like_string_sort() {
    let mut v = vec![s("walk"), s("jump"), s("idle"), s("dash"), s("jump"), s("Air"), s("")];
    let mut expected = v.clone();
    expected.sort();
    sort_names(&mut v);
    assert_eq!(v, expected);
}

#[test]
fn sort_names_on_empty_and_single() {
    let mut v: Vec<String> = vec![];
    sort_names(&mut v);
    assert!(v.is_empty());
    let mut w = vec![s("only")];
    sort_names(&mut w);
    assert_eq!(w, vec![s("only")]);
}

#[test]
fn position_of_name_finds_first() {
    let v = vec![s("a"), s("b"), s("a")];
    assert_eq!(position_of_name(&v, &s("a")), Some(0));
    assert_eq!(position_of_name(&v, &s("b")), Some(1));
    assert_eq!(position_of_name(&v, &s("c")), None);
}

#[test]
fn decimal_strings() {
    assert_eq!(decimal_string(0), "0");
    assert_eq!(decimal_string(7), "7");
    assert_eq!(decimal_string(10), "10");
    assert_eq!(decimal_string(1234567), "1234567");
}

#[test]
fn numbered_keys() {
    assert_eq!(numbered_key_string(&s("new attack"), 0), "new attack");
    assert_eq!(numbered_key_string(&s("new attack"), 1), "new attack (1)");
    assert_eq!(numbered_key_string(&s("x"), 12), "x (12)");
}

#[test]
fn unique_key_free_base_is_kept() {
    let mut m: KeyedMap<i32> = KeyedMap::new();
    m.insert(s("other"), 1);
    assert_eq!(m.guarentee_unique_key(s("new attack")), "new attack");
}

#[test]
fn unique_key_takes_smallest_free_number() {
    let mut m: KeyedMap<i32> = KeyedMap::new();
    m.insert(s("new attack"), 1);
    assert_eq!(m.guarentee_unique_key(s("new attack")), "new attack (1)");
    m.insert(s("new attack (1)"), 2);
    m.insert(s("new attack (3)"), 3);
    assert_eq!(m.guarentee_unique_key(s("new attack")), "new attack (2)");
    m.insert(s("new attack (2)"), 4);
    assert_eq!(m.guarentee_unique_key(s("new attack")), "new attack (4)");
}

#[test]
fn keyed_map_insert_replace_remove() {
    let mut m: KeyedMap<i32> = KeyedMap::new();
    assert_eq!(m.len(), 0);
    m.insert(s("a"), 1);
    m.insert(s("b"), 2);
    m.insert(s("a"), 3);
    assert_eq!(m.len(), 2);
    assert_eq!(m.keys(), vec![s("a"), s("b")]);
    assert_eq!(m.get(&s("a")), Some(&3));
    assert_eq!(m.remove(&s("a")), Some(3));
    assert_eq!(m.remove(&s("a")), None);
    assert!(!m.contains_key(&s("a")));
    assert!(m.contains_key(&s("b")));
    assert_eq!(m.find(&s("b")), Some(0));
    assert_eq!(m.keys(), vec![s("b")]);
}

#[test]
fn keyed_map_ensure_key_keeps_existing_value() {
    let mut m: KeyedMap<i32> = KeyedMap::new();
    m.ensure_key(s("a"), 5);
    m.ensure_key(s("a"), 9);
    assert_eq!(m.get(&s("a")), Some(&5));
    assert_eq!(m.len(), 1);
}

#[test]
fn keyed_map_replace_value_at() {
    let mut m: KeyedMap<i32> = KeyedMap::new();
    m.insert(s("a"), 1);
    m.insert(s("b"), 2);
    assert_eq!(m.replace_value_at(1, 20), 2);
    assert_eq!(m.get(&s("b")), Some(&20));
    assert_eq!(m.keys(), vec![s("a"), s("b")]);
}

#[test]
fn keyed_map_retain_keys() {
    let mut m: KeyedMap<i32> = KeyedMap::new();
    m.insert(s("a"), 1);
    m.insert(s("b"), 2);
    m.insert(s("c"), 3);
    m.retain_keys(&vec![s("c"), s("a"), s("z")]);
    assert_eq!(m.keys(), vec![s("a"), s("c")]);
    assert_eq!(m.get(&s("c")), Some(&3));
}

#[test]
fn keyed_map_sorted_keys() {
    let mut m: KeyedMap<()> = KeyedMap::new();
    m.insert(s("walk"), ());
    m.insert(s("idle"), ());
    m.insert(s("jump"), ());
    assert_eq!(m.sorted_keys(), vec![s("idle"), s("jump"), s("walk")]);
}
