use memcached::item::{Item, ItemBuilder};
use memcached::store_manager::{StoreManager, MAX_ALLOWED_ITEMS};

// The builder's items expire at instant 100: the reads below happen at instant 0.
const NOW: i64 = 0;

#[test]
fn should_insert_item_due_to_enough_space() {
    let mut st_manager = StoreManager::new(2);
    let key = "key".to_owned();
    let item = ItemBuilder::new().build();

    st_manager.insert_or_update(key, item);

    assert_eq!(st_manager.len(), 1);
}

#[test]
fn should_insert_second_item_due_to_enough_space() {
    let mut st_manager = StoreManager::new(2);
    let key = "key".to_owned();
    let item = ItemBuilder::new().build();

    st_manager.insert_or_update(key, item.clone());

    let key2 = "key2".to_owned();
    st_manager.insert_or_update(key2, item);
    assert_eq!(st_manager.len(), 2);
}

#[test]
fn should_replace_item_when_there_is_no_space_left() {
    let mut st_manager = StoreManager::new(1);
    let key = "key".to_owned();
    let item = ItemBuilder::new().build();

    st_manager.insert_or_update(key, item);

    let key2 = "key2".to_owned();
    let item2 = ItemBuilder::new().build();
    st_manager.insert_or_update(key2.clone(), item2.clone());
    assert_eq!(st_manager.len(), 1);

    let stored_item = st_manager.get_at(key2, NOW).unwrap();
    assert_eq!(stored_item.value, item2.value);
}

#[test]
fn should_replace_least_used_item_when_there_is_no_space_left() {
    let mut st_manager = StoreManager::new(3);
    let key = "key".to_owned();
    let item = ItemBuilder::new().build();
    let key2 = "key2".to_owned();
    let item2 = ItemBuilder::new().build();
    let key3 = "key3".to_owned();
    let item3 = ItemBuilder::new().build();

    st_manager.insert_or_update(key.clone(), item.clone());
    st_manager.insert_or_update(key2.clone(), item2.clone());
    st_manager.insert_or_update(key3.clone(), item3.clone());

    assert_eq!(st_manager.len(), st_manager.max_allowed_items());

    st_manager.insert_or_update(key.clone(), item.clone());

    assert_eq!(st_manager.len(), st_manager.max_allowed_items());
    assert!(st_manager.get_at(key2.clone(), NOW).is_some());
    assert!(st_manager.get_at(key3.clone(), NOW).is_some());
    assert!(st_manager.get_at(key.clone(), NOW).is_some());

    let key4 = "key4".to_owned();
    let item4 = ItemBuilder::new().build();

    st_manager.insert_or_update(key4.clone(), item4.clone());
    assert_eq!(st_manager.len(), st_manager.max_allowed_items());
    assert!(st_manager.get_at(key2, NOW).is_none());
    assert!(st_manager.get_at(key3.clone(), NOW).is_some());
    assert!(st_manager.get_at(key.clone(), NOW).is_some());
    assert!(st_manager.get_at(key4.clone(), NOW).is_some());

    let key5 = "key5".to_owned();
    let item5 = ItemBuilder::new().build();

    st_manager.insert_or_update(key5.clone(), item5.clone());
    assert_eq!(st_manager.len(), st_manager.max_allowed_items());
    assert!(st_manager.get_at(key3, NOW).is_none());
    assert!(st_manager.get_at(key.clone(), NOW).is_some());
    assert!(st_manager.get_at(key4.clone(), NOW).is_some());
    assert!(st_manager.get_at(key5.clone(), NOW).is_some());

    st_manager.insert_or_update(key.clone(), item.clone());

    let key6 = "key6".to_owned();

    st_manager.insert_or_update(key6.clone(), ItemBuilder::new().build());
    assert_eq!(st_manager.len(), st_manager.max_allowed_items());
    assert!(st_manager.get_at(key4, NOW).is_none());
    assert!(st_manager.get_at(key5.clone(), NOW).is_some());
    assert!(st_manager.get_at(key.clone(), NOW).is_some());
    assert!(st_manager.get_at(key6.clone(), NOW).is_some());

    st_manager.insert_or_update(key6.clone(), ItemBuilder::new().build());
    st_manager.insert_or_update(key5.clone(), ItemBuilder::new().build());
    st_manager.insert_or_update(key.clone(), ItemBuilder::new().build());

    let key7 = "key7".to_owned();

    st_manager.insert_or_update(key7.clone(), ItemBuilder::new().build());
    assert_eq!(st_manager.len(), st_manager.max_allowed_items());
    assert!(st_manager.get_at(key6, NOW).is_none());
    assert!(st_manager.get_at(key5.clone(), NOW).is_some());
    assert!(st_manager.get_at(key.clone(), NOW).is_some());
    assert!(st_manager.get_at(key7.clone(), NOW).is_some());
}

fn item(value: &str, exptime: isize, now: i64) -> Item {
    Item::new_at(now, 0, exptime, value.len(), value.to_owned())
}

#[test]
fn a_read_promotes_and_so_decides_who_is_evicted() {
    let mut store = StoreManager::new(3);
    store.insert_or_update("A".to_owned(), item("a", 100, 0));
    store.insert_or_update("B".to_owned(), item("b", 100, 0));
    store.insert_or_update("C".to_owned(), item("c", 100, 0));
    assert!(store.get_at("A".to_owned(), 1).is_some());
    store.insert_or_update("D".to_owned(), item("d", 100, 0));
    // B was the least recently used once A had been read.
    assert!(store.contains("A"));
    assert!(!store.contains("B"));
    assert!(store.contains("C"));
    assert!(store.contains("D"));
    store.insert_or_update("E".to_owned(), item("e", 100, 0));
    assert!(!store.contains("C"));
    assert!(store.contains("A"));
    assert_eq!(store.len(), 3);
}

#[test]
fn without_the_read_the_oldest_key_is_evicted() {
    let mut store = StoreManager::new(3);
    store.insert_or_update("A".to_owned(), item("a", 100, 0));
    store.insert_or_update("B".to_owned(), item("b", 100, 0));
    store.insert_or_update("C".to_owned(), item("c", 100, 0));
    store.insert_or_update("D".to_owned(), item("d", 100, 0));
    assert!(!store.contains("A"));
    assert!(store.contains("B"));
}

#[test]
fn peeking_and_missing_do_not_promote() {
    let mut store = StoreManager::new(2);
    store.insert_or_update("A".to_owned(), item("a", 5, 0));
    store.insert_or_update("B".to_owned(), item("b", 100, 0));
    assert_eq!(store.peek("A").unwrap().value, "a");
    assert!(store.contains("A"));
    // A expires at 5: the read at 6 misses and leaves the order alone.
    assert!(store.get_at("A".to_owned(), 6).is_none());
    assert!(store.get_at("nope".to_owned(), 6).is_none());
    store.insert_or_update("C".to_owned(), item("c", 100, 0));
    assert!(!store.contains("A"));
    assert!(store.contains("B"));
}

#[test]
fn an_expired_item_is_absent_but_keeps_its_slot() {
    let mut store = StoreManager::new(2);
    store.insert_or_update("old".to_owned(), item("x", -1, 1000));
    assert!(store.get_at("old".to_owned(), 1000).is_none());
    assert!(store.contains("old"));
    assert_eq!(store.len(), 1);
    store.insert_or_update("b".to_owned(), item("b", 10, 1000));
    assert_eq!(store.len(), 2);
    // The store is full: the expired item leaves only as the least recently used.
    store.insert_or_update("c".to_owned(), item("c", 10, 1000));
    assert!(!store.contains("old"));
    assert_eq!(store.len(), 2);
}

#[test]
fn expiry_is_strict_and_clamped() {
    let it = item("v", 10, 1000);
    assert_eq!(it.expires_at, 1010);
    assert!(!it.expired_at(1010));
    assert!(it.expired_at(1011));
    assert_eq!(item("v", 0, 1000).expires_at, 1000);
    assert_eq!(item("v", -1, 1000).expires_at, 999);
    assert_eq!(item("v", -500, 1000).expires_at, 999);
    assert_eq!(item("v", isize::MAX, 1).expires_at, i64::MAX);
    assert_eq!(item("v", -1, i64::MIN).expires_at, i64::MIN);
    assert_eq!(item("v", 1, i64::MAX).expires_at, i64::MAX);
}

#[test]
fn items_made_now_follow_the_clock() {
    let live = Item::new(3, 100, 1, "v".to_owned());
    assert!(!live.expired());
    assert_eq!(live.flags, 3);
    assert_eq!(live.value_length, 1);
    let dead = Item::new(0, -1, 1, "v".to_owned());
    assert!(dead.expired());
    let mut store = StoreManager::new(1);
    store.insert_or_update("k".to_owned(), live);
    assert_eq!(store.get("k".to_owned()).unwrap().value, "v");
    store.insert_or_update("k".to_owned(), dead);
    assert!(store.get("k".to_owned()).is_none());
    assert!(store.contains("k"));
}

#[test]
fn update_value_keeps_flags_expiry_and_place() {
    let mut store = StoreManager::new(2);
    store.insert_or_update("A".to_owned(), Item::new_at(0, 9, 50, 1, "a".to_owned()));
    store.insert_or_update("B".to_owned(), item("b", 100, 0));
    assert!(store.update_value("A".to_owned(), "longer".to_owned(), 6));
    assert!(!store.update_value("nope".to_owned(), "x".to_owned(), 1));
    let a = store.peek("A").unwrap();
    assert_eq!(a.value, "longer");
    assert_eq!(a.value_length, 6);
    assert_eq!(a.flags, 9);
    assert_eq!(a.expires_at, 50);
    // A is still the least recently used.
    store.insert_or_update("C".to_owned(), item("c", 100, 0));
    assert!(!store.contains("A"));
}

#[test]
fn capacity_holds_after_every_insert() {
    let mut store = StoreManager::new(4);
    let keys = ["a", "b", "c", "a", "d", "e", "b", "f", "g", "a", "h", "c", "c", "i"];
    for (n, k) in keys.iter().enumerate() {
        store.insert_or_update(k.to_string(), item("v", 10, n as i64));
        assert!(store.len() <= store.max_allowed_items());
        assert!(store.contains(k));
    }
    assert_eq!(store.len(), 4);
    for k in ["i", "c", "h", "a"] {
        assert!(store.contains(k));
    }
}

#[test]
fn default_store_has_room_for_five() {
    let store = StoreManager::default();
    assert_eq!(store.max_allowed_items(), MAX_ALLOWED_ITEMS);
    assert_eq!(store.max_allowed_items(), 5);
    assert_eq!(store.len(), 0);
}

#[test]
fn builder_makes_the_same_item_each_time() {
    let b = ItemBuilder::new();
    let x = b.build();
    let y = b.build();
    assert_eq!(x.value, "myValue");
    assert_eq!(x.value_length, 7);
    assert_eq!(x.flags, 0);
    assert_eq!(x.expires_at, 100);
    assert_eq!(y.value, x.value);
}
