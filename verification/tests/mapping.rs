use vrename::mapping::{same_text, NameMapping};
use vrename::pairing::pair_names;

fn owned(names: &[&str]) -> Vec<String> {
    names.iter().map(|name| name.to_string()).collect()
}

#[test]
fn same_text_compares_characters() {
    assert!(same_text("", ""));
    assert!(same_text("abc", "abc"));
    assert!(same_text("\u{e9}\u{1f600}", "\u{e9}\u{1f600}"));
    assert!(!same_text("abc", "abd"));
    assert!(!same_text("abc", "ab"));
    assert!(!same_text("", "a"));
    assert!(!same_text("e\u{301}", "\u{e9}"));
}

#[test]
fn a_new_mapping_is_empty() {
    let mut mapping = NameMapping::new();
    assert!(mapping.is_empty());
    assert_eq!(0, mapping.len());
    assert!(mapping.get("a").is_none());
    mapping.insert("a".to_string(), "x".to_string());
    assert!(!mapping.is_empty());
    let mapping = NameMapping::new();
    assert!(mapping.into_pairs().is_empty());
}

#[test]
fn insert_adds_a_name() {
    let mut mapping = NameMapping::new();
    mapping.insert("a".to_string(), "x".to_string());
    mapping.insert("b".to_string(), "y".to_string());
    assert_eq!(2, mapping.len());
    assert_eq!("x", mapping.get("a").unwrap());
    assert_eq!("y", mapping.get("b").unwrap());
    assert!(mapping.get("x").is_none());
}

#[test]
fn insert_replaces_the_new_name_of_a_name() {
    let mut mapping = NameMapping::new();
    mapping.insert("a".to_string(), "x".to_string());
    mapping.insert("b".to_string(), "y".to_string());
    mapping.insert("a".to_string(), "z".to_string());
    assert_eq!(2, mapping.len());
    assert_eq!("z", mapping.get("a").unwrap());
    assert_eq!("y", mapping.get("b").unwrap());
}

#[test]
fn into_pairs_gives_each_old_name_once() {
    let mut mapping = NameMapping::new();
    mapping.insert("a".to_string(), "x".to_string());
    mapping.insert("b".to_string(), "y".to_string());
    mapping.insert("a".to_string(), "z".to_string());
    let mut pairs = mapping.into_pairs();
    pairs.sort();
    assert_eq!(
        vec![
            ("a".to_string(), "z".to_string()),
            ("b".to_string(), "y".to_string())
        ],
        pairs
    );
}

#[test]
fn pair_names_pairs_by_position() {
    let mapping = pair_names(&owned(&["a", "b", "c"]), owned(&["x", "y", "z"])).unwrap();
    assert_eq!(3, mapping.len());
    assert_eq!("x", mapping.get("a").unwrap());
    assert_eq!("y", mapping.get("b").unwrap());
    assert_eq!("z", mapping.get("c").unwrap());
}

#[test]
fn pair_names_keeps_the_last_pair_of_a_name() {
    let mapping = pair_names(&owned(&["a", "a", "b", "a"]), owned(&["1", "2", "3", "4"])).unwrap();
    assert_eq!(2, mapping.len());
    assert_eq!("4", mapping.get("a").unwrap());
    assert_eq!("3", mapping.get("b").unwrap());
}

#[test]
fn pair_names_allows_new_names_to_repeat() {
    let mapping = pair_names(&owned(&["a", "b"]), owned(&["same", "same"])).unwrap();
    assert_eq!("same", mapping.get("a").unwrap());
    assert_eq!("same", mapping.get("b").unwrap());
}

#[test]
fn pair_names_of_nothing_is_empty() {
    let mapping = pair_names(&[], Vec::new()).unwrap();
    assert_eq!(0, mapping.len());
}

#[test]
fn pair_names_fails_on_too_few_new_names() {
    let err = pair_names(&owned(&["a", "b"]), owned(&["x"])).unwrap_err();
    assert_eq!(2, err.expected);
    assert_eq!(owned(&["x"]), err.new_names);
}

#[test]
fn pair_names_fails_on_too_many_new_names() {
    let err = pair_names(&owned(&["a"]), owned(&["x", "y"])).unwrap_err();
    assert_eq!(1, err.expected);
    assert_eq!(owned(&["x", "y"]), err.new_names);
    assert_eq!(
        "cannot map old names to new names (number of lines in name file changed)",
        err.message()
    );
}
