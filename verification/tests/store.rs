use see::store::{
    copy_items, lookup, names, read_from_see, write_to_see, Data, ListItem, StoreError, StoreValue,
};

fn item(name: &str, value: &str) -> ListItem {
    ListItem { name: name.to_string(), value: value.to_string() }
}

fn store(cookie: Option<&str>, list: Option<Vec<ListItem>>) -> Data {
    Data { cookie: cookie.map(|c| c.to_string()), list }
}

#[test]
fn default_store_is_empty() {
    assert_eq!(Data::default(), Data { cookie: None, list: None });
}

#[test]
fn missing_file_is_an_empty_store() {
    assert_eq!(read_from_see(None), Data { cookie: None, list: None });
    let d = store(Some("t"), Some(vec![item("a", "1")]));
    assert_eq!(read_from_see(Some(d.clone())), d);
}

#[test]
fn token_is_overwritten() {
    let d = store(Some("old"), Some(vec![item("a", "1")]));
    assert_eq!(
        write_to_see(d, "cookie", StoreValue::Text("new".to_string())),
        Ok(store(Some("new"), Some(vec![item("a", "1")])))
    );
}

#[test]
fn token_of_no_text_is_no_token() {
    for value in [StoreValue::Null, StoreValue::Other, StoreValue::Items(vec![item("a", "1")])] {
        assert_eq!(write_to_see(store(Some("old"), None), "cookie", value), Ok(store(None, None)));
    }
}

#[test]
fn list_is_merged_by_name() {
    let d = store(Some("t"), Some(vec![item("a", "1"), item("b", "2")]));
    let new = vec![item("b", "3"), item("c", "4")];
    assert_eq!(
        write_to_see(d, "list", StoreValue::Items(new)),
        Ok(store(Some("t"), Some(vec![item("a", "1"), item("b", "3"), item("c", "4")])))
    );
}

#[test]
fn only_the_first_item_of_a_name_takes_the_value() {
    let d = store(None, Some(vec![item("a", "1"), item("a", "2")]));
    assert_eq!(
        write_to_see(d, "list", StoreValue::Items(vec![item("a", "9")])),
        Ok(store(None, Some(vec![item("a", "9"), item("a", "2")])))
    );
}

#[test]
fn new_items_of_one_name_follow_each_other() {
    let d = store(None, Some(vec![]));
    assert_eq!(
        write_to_see(d, "list", StoreValue::Items(vec![item("a", "1"), item("a", "2")])),
        Ok(store(None, Some(vec![item("a", "2")])))
    );
}

#[test]
fn list_is_stored_as_it_is_where_none_was() {
    let new = vec![item("a", "1"), item("a", "2")];
    assert_eq!(
        write_to_see(store(Some("t"), None), "list", StoreValue::Items(new.clone())),
        Ok(store(Some("t"), Some(new)))
    );
}

#[test]
fn list_of_no_items_changes_nothing() {
    for value in [StoreValue::Null, StoreValue::Other, StoreValue::Text("x".to_string())] {
        let d = store(Some("t"), Some(vec![item("a", "1")]));
        assert_eq!(write_to_see(d.clone(), "list", value), Ok(d));
    }
}

#[test]
fn other_keys_are_refused() {
    for key in ["", "token", "Cookie", "lists"] {
        assert_eq!(
            write_to_see(store(None, None), key, StoreValue::Null),
            Err(StoreError::InvalidKey)
        );
    }
    assert_eq!(StoreError::InvalidKey.message(), "Invalid key");
}

#[test]
fn names_and_lookup() {
    let d = store(None, Some(vec![item("a", "1"), item("b", "2"), item("a", "3")]));
    assert_eq!(names(&d), vec!["a".to_string(), "b".to_string(), "a".to_string()]);
    assert_eq!(lookup(&d, "a"), Some("1".to_string()));
    assert_eq!(lookup(&d, "b"), Some("2".to_string()));
    assert_eq!(lookup(&d, "c"), None);
    assert_eq!(names(&store(None, None)), Vec::<String>::new());
    assert_eq!(lookup(&store(None, None), "a"), None);
}

#[test]
fn copy_of_a_list() {
    let l = vec![item("a", "1"), item("b", "2")];
    assert_eq!(copy_items(&l), l);
}
