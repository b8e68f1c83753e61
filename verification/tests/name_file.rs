use vrename::name_file::NameFile;

fn owned(names: &[&str]) -> Vec<String> {
    names.iter().map(|name| name.to_string()).collect()
}

#[test]
fn name_file_mapping() {
    let old_names = owned(&["Test 1", "Test 2", "Test 3"]);
    let name_file = NameFile::new(&old_names);

    let mapping = name_file.read_back("test1\ntest2\ntest3\n").unwrap();
    assert_eq!("test1", mapping.get("Test 1").unwrap());
    assert_eq!("test2", mapping.get("Test 2").unwrap());
    assert_eq!("test3", mapping.get("Test 3").unwrap());
}

#[test]
fn name_file_mapping_trailing_line() {
    let old_names = owned(&["Test 1", "Test 2", "Test 3"]);
    let name_file = NameFile::new(&old_names);

    let mapping = name_file.read_back("test1\ntest2\ntest3\n\n").unwrap();
    assert_eq!("test1", mapping.get("Test 1").unwrap());
    assert_eq!("test2", mapping.get("Test 2").unwrap());
    assert_eq!("test3", mapping.get("Test 3").unwrap());
}

#[test]
fn name_file_mapping_missing_line() {
    let old_names = owned(&["Test 1", "Test 2", "Test 3"]);
    let name_file = NameFile::new(&old_names);

    let err = name_file.read_back("test1\ntest2\n\n").err().unwrap();
    assert!(err.message().contains("cannot map old names to new names"));
}

#[test]
fn contents_list_each_name_on_its_own_line() {
    let old_names = owned(&["Test 1", "Test 2", "Test 3"]);
    let name_file = NameFile::new(&old_names);
    assert_eq!("Test 1\nTest 2\nTest 3\n", name_file.contents());
}

#[test]
fn contents_of_no_names_are_empty() {
    let old_names: Vec<String> = Vec::new();
    let name_file = NameFile::new(&old_names);
    assert_eq!("", name_file.contents());
}

#[test]
fn no_names_read_back_into_an_empty_mapping() {
    let old_names: Vec<String> = Vec::new();
    let mapping = NameFile::new(&old_names).read_back("").unwrap();
    assert_eq!(0, mapping.len());
    let mapping = NameFile::new(&old_names).read_back(" \n\t\n").unwrap();
    assert_eq!(0, mapping.len());
}

#[test]
fn unedited_contents_map_each_name_to_itself() {
    let old_names = owned(&["a.txt", "b c.txt", "d"]);
    let name_file = NameFile::new(&old_names);
    let contents = name_file.contents();
    let mapping = name_file.read_back(&contents).unwrap();
    assert_eq!(3, mapping.len());
    for name in &old_names {
        assert_eq!(name, mapping.get(name).unwrap());
    }
}

#[test]
fn a_name_with_whitespace_around_it_is_not_read_back_as_it_was() {
    let old_names = owned(&[" a"]);
    let name_file = NameFile::new(&old_names);
    let contents = name_file.contents();
    let mapping = name_file.read_back(&contents).unwrap();
    assert_eq!("a", mapping.get(" a").unwrap());
}

#[test]
fn read_back_pairs_by_position() {
    let old_names = owned(&["one", "two"]);
    let mapping = NameFile::new(&old_names)
        .read_back("  first  \r\n\n\tsecond")
        .unwrap();
    assert_eq!(2, mapping.len());
    assert_eq!("first", mapping.get("one").unwrap());
    assert_eq!("second", mapping.get("two").unwrap());
    assert!(mapping.get("three").is_none());
    assert!(mapping.get("first").is_none());
}

#[test]
fn an_added_line_is_a_mismatch() {
    let old_names = owned(&["one", "two"]);
    let err = NameFile::new(&old_names)
        .read_back("a\nb\nc\n")
        .err()
        .unwrap();
    assert_eq!(2, err.expected);
    assert_eq!(owned(&["a", "b", "c"]), err.new_names);
    assert_eq!(
        "cannot map old names to new names (number of lines in name file changed)",
        err.message()
    );
}

#[test]
fn a_line_left_blank_is_a_mismatch() {
    let old_names = owned(&["one", "two"]);
    let err = NameFile::new(&old_names)
        .read_back("a\n   \n")
        .err()
        .unwrap();
    assert_eq!(2, err.expected);
    assert_eq!(owned(&["a"]), err.new_names);
}

#[test]
fn an_empty_file_is_a_mismatch() {
    let old_names = owned(&["one"]);
    let err = NameFile::new(&old_names).read_back("").err().unwrap();
    assert_eq!(1, err.expected);
    assert!(err.new_names.is_empty());
}

#[test]
fn a_repeated_old_name_keeps_its_last_new_name() {
    let old_names = owned(&["same", "other", "same"]);
    let mapping = NameFile::new(&old_names)
        .read_back("first\nmiddle\nlast\n")
        .unwrap();
    assert_eq!(2, mapping.len());
    assert_eq!("last", mapping.get("same").unwrap());
    assert_eq!("middle", mapping.get("other").unwrap());
}
