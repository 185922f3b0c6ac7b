use leader_election::directory::IdTable;

fn s(text: &str) -> String {
    text.to_string()
}

#[test]
fn table_insert_get_remove() {
    let mut t = IdTable::new();
    assert_eq!(t.get(&s("0")), None);
    t.insert(s("0"), s("http://a"));
    t.insert(s("1"), s("http://b"));
    assert_eq!(t.get(&s("0")), Some(s("http://a")));
    assert!(t.contains(&s("1")));
    t.insert(s("0"), s("http://c"));
    assert_eq!(t.get(&s("0")), Some(s("http://c")));
    assert_eq!(t.to_pairs().len(), 2);
    t.remove(&s("0"));
    assert!(!t.contains(&s("0")));
    assert_eq!(t.to_pairs(), vec![(s("1"), s("http://b"))]);
    t.remove(&s("absent"));
    assert_eq!(t.to_pairs().len(), 1);
}

#[test]
fn table_keys_are_compared_as_text() {
    let mut t = IdTable::new();
    t.insert(s("1"), s("x"));
    t.insert(s("01"), s("y"));
    assert_eq!(t.get(&s("1")), Some(s("x")));
    assert_eq!(t.get(&s("01")), Some(s("y")));
    assert_eq!(t.to_pairs().len(), 2);
}

#[test]
fn table_lowest_and_highest_ids() {
    let mut t = IdTable::new();
    assert!(t.all_ids_numeric());
    assert_eq!(t.lowest_id(), i32::MAX);
    assert_eq!(t.highest_id(), i32::MIN);
    t.insert(s("5"), s("a"));
    t.insert(s("-3"), s("b"));
    t.insert(s("12"), s("c"));
    assert!(t.all_ids_numeric());
    assert_eq!(t.lowest_id(), -3);
    assert_eq!(t.highest_id(), 12);
    t.insert(s("leader"), s("d"));
    assert!(!t.all_ids_numeric());
}

#[test]
fn table_pairs_without_one_id() {
    let mut t = IdTable::new();
    t.insert(s("0"), s("a"));
    t.insert(s("1"), s("b"));
    t.insert(s("2"), s("c"));
    let mut rest = t.pairs_without(&s("1"));
    rest.sort();
    assert_eq!(rest, vec![(s("0"), s("a")), (s("2"), s("c"))]);
    assert_eq!(t.pairs_without(&s("9")).len(), 3);
}
