use nyar_collection::{Cursor, NyarTuple, TupleError};

fn ten() -> NyarTuple {
    NyarTuple::from_iter(vec![0, 1, 2, 3, 4, 5, 6, 7, 8, 9])
}

fn slice(t: &NyarTuple, head: isize, tail: isize, step: isize) -> Vec<i32> {
    t.get_range(head, tail, step).unwrap().collect()
}

#[test]
fn slices_of_ten() {
    let t = ten();
    assert_eq!(slice(&t, 1, 1, 1), vec![0]);
    assert_eq!(slice(&t, 1, -1, 1), vec![0, 1, 2, 3, 4, 5, 6, 7, 8, 9]);
    assert_eq!(slice(&t, 1, 2, 1), vec![0, 1]);
    assert_eq!(slice(&t, 1, -1, 2), vec![0, 2, 4, 6, 8]);
    assert_eq!(slice(&t, 1, -1, -1), vec![9, 8, 7, 6, 5, 4, 3, 2, 1, 0]);
    assert!(matches!(t.get_range(1, -1, 0), Err(TupleError::InvalidStride)));
}

#[test]
fn a_stride_of_zero_is_always_refused() {
    let t = ten();
    for (head, tail) in [(1, 1), (0, 0), (5, 2), (-3, -1), (isize::MIN, isize::MAX)] {
        assert!(matches!(t.get_range(head, tail, 0), Err(TupleError::InvalidStride)));
    }
    let none = NyarTuple::new();
    assert!(matches!(none.get_range(1, -1, 0), Err(TupleError::InvalidStride)));
}

#[test]
fn a_negative_stride_reverses_the_forward_selection() {
    let t = ten();
    assert_eq!(slice(&t, 1, -1, -2), vec![8, 6, 4, 2, 0]);
    assert_eq!(slice(&t, 1, -1, -3), vec![9, 6, 3, 0]);
    assert_eq!(slice(&t, 1, -1, -4), vec![8, 4, 0]);
    assert_eq!(slice(&t, 2, -1, -4), vec![9, 5, 1]);
    for step in 1isize..12 {
        let mut forward = slice(&t, 2, 9, step);
        forward.reverse();
        assert_eq!(slice(&t, 2, 9, -step), forward);
    }
}

#[test]
fn windows_inside_the_tuple() {
    let t = ten();
    assert_eq!(slice(&t, 3, 6, 1), vec![2, 3, 4, 5]);
    assert_eq!(slice(&t, 3, 6, 2), vec![2, 4]);
    assert_eq!(slice(&t, 3, 6, 3), vec![2, 5]);
    assert_eq!(slice(&t, 3, 6, 4), vec![2]);
    assert_eq!(slice(&t, -4, -2, 1), vec![6, 7, 8]);
    assert_eq!(slice(&t, -4, -2, -1), vec![8, 7, 6]);
    assert_eq!(slice(&t, 4, -4, 1), vec![3, 4, 5, 6]);
}

#[test]
fn head_behind_tail_selects_nothing() {
    let t = ten();
    assert_eq!(slice(&t, 5, 4, 1), Vec::<i32>::new());
    assert_eq!(slice(&t, 5, 1, -1), Vec::<i32>::new());
    assert_eq!(slice(&t, -1, 1, 1), Vec::<i32>::new());
}

#[test]
fn a_head_that_names_nothing_selects_nothing() {
    let t = ten();
    assert_eq!(slice(&t, 0, -1, 1), Vec::<i32>::new());
    assert_eq!(slice(&t, -11, -1, 1), Vec::<i32>::new());
    assert_eq!(slice(&t, isize::MIN, -1, 1), Vec::<i32>::new());
    assert_eq!(slice(&t, 11, -1, 1), Vec::<i32>::new());
    assert_eq!(slice(&t, isize::MAX, -1, 1), Vec::<i32>::new());
}

#[test]
fn a_tail_that_names_nothing_closes_behind_the_first_slot() {
    let t = ten();
    assert_eq!(slice(&t, 1, 0, 1), vec![0]);
    assert_eq!(slice(&t, 1, -11, 1), vec![0]);
    assert_eq!(slice(&t, 1, isize::MIN, -1), vec![0]);
    assert_eq!(slice(&t, 2, 0, 1), Vec::<i32>::new());
}

#[test]
fn a_tail_past_the_end_stops_at_the_end() {
    let t = ten();
    assert_eq!(slice(&t, 8, 100, 1), vec![7, 8, 9]);
    assert_eq!(slice(&t, 8, isize::MAX, 1), vec![7, 8, 9]);
    assert_eq!(slice(&t, 8, isize::MAX, -2), vec![9, 7]);
}

#[test]
fn large_strides_select_the_first_slot_of_the_window() {
    let t = ten();
    assert_eq!(slice(&t, 1, -1, 10), vec![0]);
    assert_eq!(slice(&t, 1, -1, 9), vec![0, 9]);
    assert_eq!(slice(&t, 4, -1, isize::MAX), vec![3]);
    assert_eq!(slice(&t, 4, -1, isize::MIN), vec![3]);
    assert_eq!(slice(&t, 4, -1, isize::MIN + 1), vec![3]);
}

#[test]
fn slices_of_the_empty_tuple() {
    let t = NyarTuple::new();
    assert_eq!(slice(&t, 1, -1, 1), Vec::<i32>::new());
    assert_eq!(slice(&t, 1, 1, 1), Vec::<i32>::new());
    assert_eq!(slice(&t, -1, -1, -1), Vec::<i32>::new());
    assert_eq!(slice(&t, 0, 0, 5), Vec::<i32>::new());
}

#[test]
fn slices_of_one_slot() {
    let t = ten();
    for ordinal in 1isize..=10 {
        assert_eq!(slice(&t, ordinal, ordinal, 1), vec![ordinal as i32 - 1]);
        assert_eq!(slice(&t, -ordinal, -ordinal, 1), vec![10 - ordinal as i32]);
    }
}

#[test]
fn a_view_is_drained_from_both_ends() {
    let t = ten();
    let mut view = t.get_range(1, -1, 3).unwrap();
    assert_eq!(view.len(), 4);
    assert_eq!(view.next(), Some(&0));
    assert_eq!(view.next_back(), Some(&9));
    assert_eq!(view.len(), 2);
    assert_eq!(view.next_back(), Some(&6));
    assert_eq!(view.next(), Some(&3));
    assert_eq!(view.len(), 0);
    assert_eq!(view.next(), None);
    assert_eq!(view.next_back(), None);
    assert_eq!(view.next(), None);
}

#[test]
fn a_reversed_view_is_drained_from_both_ends() {
    let t = ten();
    let mut view = t.get_range(1, -1, -3).unwrap();
    assert_eq!(view.next(), Some(&9));
    assert_eq!(view.next_back(), Some(&0));
    assert_eq!(view.next_back(), Some(&3));
    assert_eq!(view.next(), Some(&6));
    assert_eq!(view.next_back(), None);
    assert_eq!(view.next(), None);
}

#[test]
fn views_do_not_disturb_each_other() {
    let t = ten();
    let mut a = t.get_range(1, -1, 1).unwrap();
    let mut b = t.get_range(1, -1, 1).unwrap();
    assert_eq!(a.next(), Some(&0));
    assert_eq!(a.next(), Some(&1));
    assert_eq!(b.next(), Some(&0));
    assert_eq!(a.collect(), vec![2, 3, 4, 5, 6, 7, 8, 9]);
    assert_eq!(b.collect(), vec![1, 2, 3, 4, 5, 6, 7, 8, 9]);
}

#[test]
fn collecting_a_view_that_was_begun() {
    let t = ten();
    let mut view = t.get_range(2, -2, -2).unwrap();
    assert_eq!(view.next(), Some(&7));
    assert_eq!(view.next_back(), Some(&1));
    assert_eq!(view.collect(), vec![5, 3]);
}

#[test]
fn an_edit_writes_to_the_selected_slots() {
    let mut t = ten();
    {
        let mut edit = t.get_range_mut(1, -1, 2).unwrap();
        assert_eq!(edit.len(), 5);
        while let Some(slot) = edit.next() {
            *slot += 100;
        }
        assert_eq!(edit.len(), 0);
        assert!(edit.next().is_none());
        assert!(edit.next_back().is_none());
    }
    assert_eq!(t.to_vec(), vec![100, 1, 102, 3, 104, 5, 106, 7, 108, 9]);
}

#[test]
fn an_edit_follows_the_order_of_the_view() {
    let mut t = ten();
    {
        let mut edit = t.get_range_mut(1, -1, -3).unwrap();
        let mut n = 0;
        while let Some(slot) = edit.next() {
            n += 1;
            *slot = -n;
        }
    }
    assert_eq!(t.to_vec(), vec![-4, 1, 2, -3, 4, 5, -2, 7, 8, -1]);
}

#[test]
fn an_edit_is_drained_from_both_ends() {
    let mut t = ten();
    {
        let mut edit = t.get_range_mut(3, 8, 2).unwrap();
        assert_eq!(edit.next().copied(), Some(2));
        *edit.next_back().unwrap() = 60;
        *edit.next_back().unwrap() = 40;
        assert!(edit.next().is_none());
    }
    assert_eq!(t.to_vec(), vec![0, 1, 2, 3, 40, 5, 60, 7, 8, 9]);
}

#[test]
fn an_edit_keeps_the_names() {
    let mut t = NyarTuple::new();
    t.append_named("a", 1).unwrap();
    t.append_named("b", 2).unwrap();
    {
        let mut edit = t.get_range_mut(1, -1, 1).unwrap();
        while let Some(slot) = edit.next() {
            *slot *= 10;
        }
    }
    assert_eq!(t.get_named("a"), Some(&10));
    assert_eq!(t.get_named("b"), Some(&20));
    assert_eq!(t.len(), 2);
}

#[test]
fn an_edit_with_a_stride_of_zero_is_refused() {
    let mut t = ten();
    assert!(matches!(t.get_range_mut(1, -1, 0), Err(TupleError::InvalidStride)));
    assert_eq!(t.to_vec(), vec![0, 1, 2, 3, 4, 5, 6, 7, 8, 9]);
}

#[test]
fn cursors_hand_out_offsets() {
    let mut c = Cursor::select(10, 2, -2, 3).unwrap();
    assert_eq!(c.len(), 3);
    assert_eq!(c.next(), Some(1));
    assert_eq!(c.next_back(), Some(7));
    assert_eq!(c.next(), Some(4));
    assert_eq!(c.next(), None);
    let mut r = Cursor::select(10, 2, -2, -3).unwrap();
    assert_eq!(r.next(), Some(7));
    assert_eq!(r.next(), Some(4));
    assert_eq!(r.next(), Some(1));
    assert_eq!(r.next_back(), None);
    assert!(matches!(Cursor::select(10, 2, -2, 0), Err(TupleError::InvalidStride)));
}

#[test]
fn cursors_over_the_longest_sequence() {
    let mut c = Cursor::select(usize::MAX, -1, -1, 1).unwrap();
    assert_eq!(c.next(), Some(usize::MAX - 1));
    assert_eq!(c.next(), None);
    let mut d = Cursor::select(usize::MAX, 0, -1, 1).unwrap();
    assert_eq!(d.next(), None);
    let mut e = Cursor::select(usize::MAX, 1, isize::MAX, isize::MAX).unwrap();
    assert_eq!(e.len(), 1);
    assert_eq!(e.next_back(), Some(0));
    let mut f = Cursor::select(usize::MAX, 1, -1, isize::MIN).unwrap();
    assert_eq!(f.len(), 2);
    assert_eq!(f.next(), Some(1usize << (usize::BITS - 1)));
    assert_eq!(f.next(), Some(0));
}
