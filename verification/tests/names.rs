use nyar_collection::{NyarTuple, TupleError};

#[test]
fn prepend_many_puts_the_last_item_first() {
    let mut t = NyarTuple::new();
    t.prepend_many(vec![10, 20, 30]);
    assert_eq!(t.get_ordinal(1), Some(&30));
    assert_eq!(t.get_ordinal(2), Some(&20));
    assert_eq!(t.get_ordinal(3), Some(&10));
    assert_eq!(t.get_ordinal(4), None);
}

#[test]
fn prepend_many_goes_in_front_of_what_was_there() {
    let mut t = NyarTuple::from_iter(vec![1, 2]);
    t.prepend_many(vec![10, 20, 30]);
    assert_eq!(t.to_vec(), vec![30, 20, 10, 1, 2]);
    t.prepend_many(vec![]);
    assert_eq!(t.to_vec(), vec![30, 20, 10, 1, 2]);
}

#[test]
fn append_many_keeps_the_order() {
    let mut t = NyarTuple::from_iter(vec![1, 2]);
    t.append_many(vec![10, 20, 30]);
    assert_eq!(t.to_vec(), vec![1, 2, 10, 20, 30]);
    t.append_many(vec![]);
    assert_eq!(t.to_vec(), vec![1, 2, 10, 20, 30]);
}

#[test]
fn batches_are_repeated_single_insertions() {
    let mut batch = NyarTuple::from_iter(vec![5]);
    let mut single = NyarTuple::from_iter(vec![5]);
    batch.append_many(vec![1, 2, 3]);
    batch.prepend_many(vec![7, 8, 9]);
    for x in [1, 2, 3] {
        single.append_one(x);
    }
    for x in [7, 8, 9] {
        single.prepend_one(x);
    }
    assert_eq!(batch.to_vec(), single.to_vec());
    assert_eq!(batch.to_vec(), vec![9, 8, 7, 5, 1, 2, 3]);
}

#[test]
fn a_name_is_taken_once() {
    let mut t = NyarTuple::new();
    assert_eq!(t.append_named("x", 1), Ok(()));
    assert_eq!(t.append_named("x", 2), Err(TupleError::DuplicateName));
    assert_eq!(t.len(), 1);
    assert_eq!(t.to_vec(), vec![1]);
    assert_eq!(t.get_named("x"), Some(&1));
}

#[test]
fn a_taken_name_is_refused_at_the_front_too() {
    let mut t = NyarTuple::from_iter(vec![8, 9]);
    assert_eq!(t.prepend_named("x", 1), Ok(()));
    assert_eq!(t.prepend_named("x", 2), Err(TupleError::DuplicateName));
    assert_eq!(t.append_named("x", 3), Err(TupleError::DuplicateName));
    assert_eq!(t.to_vec(), vec![1, 8, 9]);
    assert_eq!(t.get_named("x"), Some(&1));
}

#[test]
fn unknown_names_are_absent() {
    let mut t = NyarTuple::from_iter(vec![1, 2, 3]);
    assert_eq!(t.get_named("x"), None);
    assert_eq!(t.get_named(""), None);
    t.append_named("x", 4).unwrap();
    assert_eq!(t.get_named("X"), None);
    assert_eq!(t.get_named("xx"), None);
    assert_eq!(t.get_named("x"), Some(&4));
}

#[test]
fn appended_name_stands_for_the_new_last_slot() {
    let mut t = NyarTuple::from_iter(vec![1, 2, 3]);
    t.append_named("a", 10).unwrap();
    t.append_one(4);
    t.append_named("b", 20).unwrap();
    assert_eq!(t.to_vec(), vec![1, 2, 3, 10, 4, 20]);
    assert_eq!(t.get_named("a"), Some(&10));
    assert_eq!(t.get_named("b"), Some(&20));
    assert_eq!(t.get_named("a"), t.get_offset(3));
    assert_eq!(t.get_named("b"), t.get_offset(5));
}

#[test]
fn names_follow_their_slots_when_a_named_item_goes_in_front() {
    let mut t = NyarTuple::new();
    t.append_named("a", 10).unwrap();
    t.append_named("b", 20).unwrap();
    t.prepend_named("c", 30).unwrap();
    t.prepend_named("d", 40).unwrap();
    assert_eq!(t.to_vec(), vec![40, 30, 10, 20]);
    assert_eq!(t.get_named("a"), Some(&10));
    assert_eq!(t.get_named("b"), Some(&20));
    assert_eq!(t.get_named("c"), Some(&30));
    assert_eq!(t.get_named("d"), Some(&40));
}

#[test]
fn names_keep_their_offsets_when_an_unnamed_item_goes_in_front() {
    let mut t = NyarTuple::new();
    t.append_named("a", 10).unwrap();
    t.append_named("b", 20).unwrap();
    t.prepend_one(5);
    assert_eq!(t.to_vec(), vec![5, 10, 20]);
    assert_eq!(t.get_named("a"), Some(&5));
    assert_eq!(t.get_named("b"), Some(&10));
}

#[test]
fn names_may_be_any_text() {
    let mut t = NyarTuple::new();
    t.append_named("", 1).unwrap();
    t.append_named("é", 2).unwrap();
    t.append_named("e\u{301}", 3).unwrap();
    t.append_named("名前", 4).unwrap();
    assert_eq!(t.get_named(""), Some(&1));
    assert_eq!(t.get_named("é"), Some(&2));
    assert_eq!(t.get_named("e\u{301}"), Some(&3));
    assert_eq!(t.get_named("名前"), Some(&4));
    assert_eq!(t.append_named("", 5), Err(TupleError::DuplicateName));
}

#[test]
fn many_names() {
    let mut t = NyarTuple::new();
    for i in 0..50 {
        let name = format!("n{}", i);
        if i % 2 == 0 {
            t.append_named(&name, i).unwrap();
        } else {
            t.prepend_named(&name, i).unwrap();
        }
    }
    for i in 0..50 {
        let name = format!("n{}", i);
        assert_eq!(t.get_named(&name), Some(&i));
    }
    assert_eq!(t.len(), 50);
}

#[test]
fn error_messages() {
    assert_eq!(TupleError::DuplicateName.message(), "KeyAlreadyExists");
    assert_eq!(TupleError::InvalidStride.message(), "InvalidStride");
}
