use cyclic_data_types::error::Error;
use cyclic_data_types::list::List;

#[test]
fn reject_policy_scenario() {
    let mut l: List<3, i32, false> = List::new();
    assert_eq!(l.push_back(1), Ok(()));
    assert_eq!(l.push_back(2), Ok(()));
    assert_eq!(l.push_back(3), Ok(()));
    assert_eq!(l.len(), 3);
    assert_eq!(l.push_back(4), Err(Error::Full));
    assert_eq!(l.len(), 3);
    assert_eq!(l.remove_front(), Some(1));
    assert_eq!(l.len(), 2);
    assert_eq!(l.push_back(4), Ok(()));
    assert_eq!(l.len(), 3);
    assert_eq!(l.remove_front(), Some(2));
    assert_eq!(l.remove_front(), Some(3));
    assert_eq!(l.remove_front(), Some(4));
    assert_eq!(l.remove_front(), None);
}

#[test]
fn overwrite_policy_scenario() {
    let mut l: List<3, i32, true> = List::new();
    assert_eq!(l.push_back(1), Ok(()));
    assert_eq!(l.push_back(2), Ok(()));
    assert_eq!(l.push_back(3), Ok(()));
    assert_eq!(l.push_back(4), Ok(()));
    assert_eq!(l.len(), 3);
    assert_eq!(l.remove_front(), Some(2));
    assert_eq!(l.remove_front(), Some(3));
    assert_eq!(l.remove_front(), Some(4));
    assert_eq!(l.remove_front(), None);
}

#[test]
fn full_reject_keeps_elements() {
    let mut l: List<2, i32, false> = List::from_array([5, 6]);
    assert_eq!(l.push_back(7), Err(Error::Full));
    assert_eq!(l.get(0), Ok(&5));
    assert_eq!(l.get(1), Ok(&6));
    assert_eq!(l.len(), 2);
}

#[test]
fn full_overwrite_front_is_second_oldest() {
    let mut l: List<3, i32, true> = List::from_array([10, 20, 30]);
    assert_eq!(l.push_back(40), Ok(()));
    assert_eq!(l.get(0), Ok(&20));
    assert_eq!(l.get(2), Ok(&40));
    assert_eq!(l.len(), 3);
}

#[test]
fn fifo_order_across_wraparound() {
    let mut l: List<4, u32, false> = List::new();
    let mut out = Vec::new();
    for i in 0..10u32 {
        assert_eq!(l.push_back(i), Ok(()));
        if l.len() == 4 {
            out.push(l.remove_front().unwrap());
            out.push(l.remove_front().unwrap());
        }
    }
    while let Some(x) = l.remove_front() {
        out.push(x);
    }
    assert_eq!(out, (0..10).collect::<Vec<u32>>());
}

#[test]
fn fifo_order_with_evictions() {
    let mut l: List<3, u32, true> = List::new();
    for i in 0..8u32 {
        assert_eq!(l.push_back(i), Ok(()));
    }
    assert_eq!(l.remove_front(), Some(5));
    assert_eq!(l.push_back(8), Ok(()));
    assert_eq!(l.remove_front(), Some(6));
    assert_eq!(l.remove_front(), Some(7));
    assert_eq!(l.remove_front(), Some(8));
    assert_eq!(l.remove_front(), None);
}

#[test]
fn policy_round_trip_keeps_order() {
    let mut l: List<4, i32, false> = List::new();
    for i in 0..4 {
        assert_eq!(l.push_back(i), Ok(()));
    }
    assert_eq!(l.remove_front(), Some(0));
    assert_eq!(l.push_back(4), Ok(()));
    let over = l.into_write_over();
    assert_eq!(over.len(), 4);
    assert_eq!(over.get(0), Ok(&1));
    let mut back = over.into_reject();
    assert_eq!(back.len(), 4);
    assert_eq!(back.push_back(9), Err(Error::Full));
    for expected in 1..5 {
        assert_eq!(back.remove_front(), Some(expected));
    }
    assert_eq!(back.remove_front(), None);
}

#[test]
fn from_array_reads_in_order() {
    let l: List<5, char, false> = List::from_array(['a', 'b', 'c', 'd', 'e']);
    assert_eq!(l.len(), 5);
    let read: Vec<char> = (0..5).map(|i| *l.get(i).unwrap()).collect();
    assert_eq!(read, vec!['a', 'b', 'c', 'd', 'e']);
}

#[test]
fn try_from_vec_too_long_is_refused() {
    let r: Result<List<3, i32, false>, Error> = List::try_from_vec(vec![1, 2, 3, 4]);
    assert_eq!(r.err(), Some(Error::CapacityMismatch));
}

#[test]
fn try_from_vec_fits() {
    let l: List<3, i32, false> = List::try_from_vec(vec![1, 2]).unwrap();
    assert_eq!(l.len(), 2);
    assert_eq!(l.get(0), Ok(&1));
    assert_eq!(l.get(1), Ok(&2));
    assert_eq!(l.get(2), Err(Error::IndexOutOfRange));
}

#[test]
fn try_from_vec_overwrite_keeps_last() {
    let mut l: List<3, i32, true> = List::try_from_vec(vec![1, 2, 3, 4, 5]).unwrap();
    assert_eq!(l.len(), 3);
    assert_eq!(l.remove_front(), Some(3));
    assert_eq!(l.remove_front(), Some(4));
    assert_eq!(l.remove_front(), Some(5));
}

#[test]
fn empty_source_gives_empty_list() {
    let mut l: List<3, i32, false> = List::try_from_vec(Vec::new()).unwrap();
    assert_eq!(l.len(), 0);
    assert_eq!(l.remove_front(), None);
    assert_eq!(l.get(0), Err(Error::IndexOutOfRange));
}

#[test]
fn set_replaces_in_place() {
    let mut l: List<3, i32, true> = List::from_array([1, 2, 3]);
    assert_eq!(l.push_back(4), Ok(()));
    assert_eq!(l.set(1, 30), Ok(()));
    assert_eq!(l.set(3, 99), Err(Error::IndexOutOfRange));
    assert_eq!(l.remove_front(), Some(2));
    assert_eq!(l.remove_front(), Some(30));
    assert_eq!(l.remove_front(), Some(4));
}

#[test]
fn zero_capacity() {
    let mut r: List<0, i32, false> = List::default();
    assert_eq!(r.push_back(1), Err(Error::Full));
    assert_eq!(r.len(), 0);
    let mut o: List<0, i32, true> = List::new();
    assert_eq!(o.push_back(1), Ok(()));
    assert_eq!(o.len(), 0);
    assert_eq!(o.remove_front(), None);
}

#[test]
fn evicted_elements_are_dropped() {
    let tracker = std::rc::Rc::new(());
    let mut l: List<2, std::rc::Rc<()>, true> = List::new();
    for _ in 0..5 {
        assert_eq!(l.push_back(tracker.clone()), Ok(()));
    }
    assert_eq!(std::rc::Rc::strong_count(&tracker), 3);
    drop(l.remove_front());
    assert_eq!(std::rc::Rc::strong_count(&tracker), 2);
}
