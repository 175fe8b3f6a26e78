use memcached::store_manager::list::List;

#[test]
fn list_should_create_a_list() {
    let mut list = List::default();
    list.insert_at_the_end("hello");
    list.insert_at_the_end("hello2");
    list.insert_at_the_beginning("hello3");
    list.insert_at_the_end("world");
    assert_eq!(list.last_value(), Some("world".to_string()));
    assert_eq!(list.first_value(), Some("hello3".to_string()));
}

#[test]
fn list_should_create_a_list_inserting_always_at_the_beginning() {
    let mut list = List::default();
    list.insert_at_the_beginning("hello");
    list.insert_at_the_beginning("hello2");
    list.insert_at_the_beginning("hello3");
    list.insert_at_the_beginning("world");
    assert_eq!(list.first_value(), Some("world".to_string()));
    assert_eq!(list.last_value(), Some("hello".to_string()));
}

#[test]
fn list_should_mark_and_move_at_first_place_if_exists_in_the_middle() {
    let mut list = List::default();
    list.insert_at_the_beginning("hello");
    list.insert_at_the_beginning("hello2");
    list.insert_at_the_beginning("hello3");
    assert!(list.find_and_move_first_place("hello2"));
    assert_eq!(list.first_value(), Some("hello2".to_string()));
    let next_value = list.find_next_value("hello2");
    assert_eq!(next_value, Some("hello3".to_string()));
    assert_eq!(list.last_value(), Some("hello".to_string()));
}

#[test]
fn should_insert_beginning_and_drop_last_value() {
    let mut list = List::default();
    list.insert_at_the_beginning("hello");
    list.insert_at_the_beginning("hello2");
    list.insert_at_the_beginning("hello3");
    list.insert_at_beginning_and_drop_last_node("hello4");
    assert_eq!(list.first_value(), Some("hello4".to_string()));
    assert_eq!(list.last_value(), Some("hello2".to_string()));
}

#[test]
fn should_insert_beginning_and_skip_dropping_last_value_when_only_one_item() {
    let mut list = List::default();
    list.insert_at_beginning_and_drop_last_node("hello4");
    assert_eq!(list.first_value(), Some("hello4".to_string()));
    assert_eq!(list.last_value(), Some("hello4".to_string()));
}

#[test]
fn store_manager_should_create_a_list() {
    let mut list = List::default();
    list.insert_at_the_end("hello");
    list.insert_at_the_end("hello2");
    list.insert_at_the_beginning("hello3");
    list.insert_at_the_end("world");
    assert_eq!(list.last_value(), Some("world".to_string()));
    assert_eq!(list.first_value(), Some("hello3".to_string()));
}

#[test]
fn store_manager_should_create_a_list_inserting_always_at_the_beginning() {
    let mut list = List::default();
    list.insert_at_the_beginning("hello");
    list.insert_at_the_beginning("hello2");
    list.insert_at_the_beginning("hello3");
    list.insert_at_the_beginning("world");
    assert_eq!(list.first_value(), Some("world".to_string()));
    assert_eq!(list.last_value(), Some("hello".to_string()));
}

#[test]
fn store_manager_should_mark_and_move_at_first_place_if_exists_in_the_middle() {
    let mut list = List::default();
    list.insert_at_the_beginning("hello");
    list.insert_at_the_beginning("hello2");
    list.insert_at_the_beginning("hello3");
    assert!(list.find_and_move_first_place("hello2"));
    assert_eq!(list.first_value(), Some("hello2".to_string()));
    assert_eq!(list.last_value(), Some("hello".to_string()));
}

fn keys(list: &mut List) -> Vec<String> {
    let mut out = Vec::new();
    while let Some(key) = list.pop_back() {
        out.push(key);
    }
    out.reverse();
    out
}

#[test]
fn empty_list_has_no_ends() {
    let mut list = List::new();
    assert_eq!(list.len(), 0);
    assert_eq!(list.first_value(), None);
    assert_eq!(list.last_value(), None);
    assert_eq!(list.find_next_value("a"), None);
    assert!(!list.find_and_move_first_place("a"));
    assert_eq!(list.pop_back(), None);
}

#[test]
fn promotion_keeps_the_order_of_the_others() {
    let mut list = List::new();
    for k in ["a", "b", "c", "d"] {
        list.insert_at_the_end(k);
    }
    assert!(list.find_and_move_first_place("c"));
    assert!(list.find_and_move_first_place("c"));
    assert!(list.find_and_move_first_place("d"));
    assert!(!list.find_and_move_first_place("e"));
    assert_eq!(list.len(), 4);
    assert_eq!(keys(&mut list), ["d", "c", "a", "b"]);
}

#[test]
fn promotion_takes_the_first_of_equal_keys() {
    let mut list = List::new();
    for k in ["a", "b", "a", "c"] {
        list.insert_at_the_end(k);
    }
    assert_eq!(list.find_next_value("a"), Some("b".to_string()));
    assert!(list.find_and_move_first_place("b"));
    assert_eq!(list.find_next_value("b"), Some("a".to_string()));
    assert_eq!(list.find_next_value("c"), None);
    assert_eq!(keys(&mut list), ["b", "a", "a", "c"]);
}

#[test]
fn slots_are_stable_and_reused() {
    let mut list = List::new();
    let a = list.push_front("a".to_string());
    let b = list.push_front("b".to_string());
    let c = list.push_back("c".to_string());
    assert!(a != b && b != c && a != c);
    list.move_to_front(c);
    assert_eq!(list.first_value(), Some("c".to_string()));
    assert_eq!(list.last_value(), Some("a".to_string()));
    assert_eq!(list.pop_back(), Some("a".to_string()));
    let d = list.push_front("d".to_string());
    assert_eq!(d, a);
    list.move_to_front(b);
    list.move_to_front(b);
    assert_eq!(keys(&mut list), ["b", "d", "c"]);
    assert_eq!(list.len(), 0);
}

#[test]
fn dropping_the_last_skips_a_key_equal_to_the_new_one() {
    let mut list = List::new();
    list.insert_at_the_beginning("x");
    list.insert_at_beginning_and_drop_last_node("x");
    assert_eq!(list.len(), 2);
    list.insert_at_beginning_and_drop_last_node("y");
    assert_eq!(keys(&mut list), ["y", "x"]);
}
