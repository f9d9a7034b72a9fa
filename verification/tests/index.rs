use porgi::index::{hash_key, KeyIndex};

#[test]
fn hash_of_known_texts() {
    assert_eq!(hash_key(&"".to_string()), 0xcbf29ce484222325);
    assert_eq!(hash_key(&"a".to_string()), 0xaf63dc4c8601ec8c);
    assert_eq!(hash_key(&"foobar".to_string()), 0x85944171f73967e8);
}

#[test]
fn index_finds_what_it_took() {
    let mut index = KeyIndex::new();
    assert_eq!(index.get(&"a".to_string()), None);
    index.insert("a".to_string(), 0);
    index.insert("b".to_string(), 1);
    index.insert("".to_string(), 2);
    assert_eq!(index.get(&"a".to_string()), Some(0));
    assert_eq!(index.get(&"b".to_string()), Some(1));
    assert_eq!(index.get(&"".to_string()), Some(2));
    assert_eq!(index.get(&"c".to_string()), None);
    assert_eq!(index.get(&"ab".to_string()), None);
}
