use go_forth::dictionary::{Dictionary, DictionaryErr};

#[test]
fn get_no_match_returns_none() {
    let cap = 11;
    let mut d = Dictionary::<i32, i32>::new(cap);
    d.insert(Some(4), 3).unwrap();
    assert_eq!(None, d.get(339));
}

#[test]
fn insert_would_overflow_returns_err() {
    let cap = 1;
    let mut d = Dictionary::<i32, i32>::new(cap);
    d.insert(Some(4), 3).unwrap();
    assert_eq!(DictionaryErr::Overflow, d.insert(Some(34), 5).unwrap_err());
}

#[test]
fn insert_removes_old_value() {
    let cap = 30201;
    let mut d = Dictionary::<i32, i32>::new(cap);
    d.insert(Some(4), 3).unwrap();
    d.insert(Some(4), 5).unwrap();

    assert_eq!((Some(4), 5), d.dictionary()[0]);
}

#[test]
fn insert_sets() {
    let cap = 30201;
    let mut d = Dictionary::<i32, i32>::new(cap);
    d.insert(Some(2), 3).unwrap();
    d.insert(Some(4), 5).unwrap();

    assert_eq!((Some(2), 3), d.dictionary()[0]);
    assert_eq!((Some(4), 5), d.dictionary()[1]);
}

#[test]
fn dictionary_new_sets_capacity() {
    let cap = 30201;
    let d = Dictionary::<i32, i32>::new(cap);
    assert_eq!(cap, d.capacity());
    assert_eq!(true, d.dictionary().is_empty());
}

#[test]
fn clear_wipes_data() {
    let cap = 30201;
    let mut d = Dictionary::<i32, i32>::new(cap);
    let _ = d.insert(Some(2), 3);
    let _ = d.insert(Some(4), 5);
    d.clear();
    assert_eq!(true, d.dictionary().is_empty());
}

#[test]
fn rename_moves_entry_to_end_and_shifts_later_ones() {
    let mut d = Dictionary::<i32, i32>::new(10);
    assert_eq!(Ok(0), d.insert(Some(1), 10));
    assert_eq!(Ok(1), d.insert(Some(2), 20));
    assert_eq!(Ok(2), d.insert(Some(3), 30));
    assert_eq!(Some(0), d.get_addr(1));
    assert_eq!(Some(1), d.get_addr(2));
    assert_eq!(Some(2), d.get_addr(3));

    assert_eq!(Ok(2), d.insert(Some(1), 11));
    assert_eq!(Some(2), d.get_addr(1));
    assert_eq!(Some(0), d.get_addr(2));
    assert_eq!(Some(1), d.get_addr(3));
    assert_eq!(Some(&11), d.get(1));
    assert_eq!(3, d.dictionary().len());
}

#[test]
fn full_dictionary_rejects_insert_and_keeps_entries() {
    let mut d = Dictionary::<i32, i32>::new(2);
    d.insert(Some(1), 10).unwrap();
    d.insert(None, 20).unwrap();
    assert_eq!(Err(DictionaryErr::Overflow), d.insert(Some(3), 30));
    assert_eq!(Err(DictionaryErr::Overflow), d.insert(None, 40));
    assert_eq!(&[(Some(1), 10), (None, 20)], d.dictionary());
    // a rename makes room for itself
    assert_eq!(Ok(1), d.insert(Some(1), 11));
    assert_eq!(&[(None, 20), (Some(1), 11)], d.dictionary());
}

#[test]
fn anonymous_entries_are_reached_by_address() {
    let mut d = Dictionary::<i32, i32>::new(4);
    let a = d.insert(None, 0).unwrap();
    assert_eq!(Ok(()), d.set_from_addr(a, 99));
    assert_eq!(Some(&(None, 99)), d.get_from_addr(a));
    assert_eq!(None, d.get_from_addr(a + 1));
    assert_eq!(Err(DictionaryErr::UndefinedAccess), d.set_from_addr(a + 1, 5));
    assert_eq!(None, d.get_addr(0));
}
