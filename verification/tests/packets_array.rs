use tox_net_crypto::error::Error;
use tox_net_crypto::packets_array::{PacketsArray, PACKETS_ARRAY_SIZE};

#[test]
fn new_array_is_empty() {
    let array = PacketsArray::<u8>::new();
    assert_eq!(array.buffer.len(), 65536);
    assert_eq!(array.buffer_start, 0);
    assert_eq!(array.buffer_end, 0);
    assert_eq!(array.len(), 0);
    assert!(!array.contains(0));
    assert_eq!(array.get(0), None);
    assert!(array.sequence_numbers().is_empty());
}

#[test]
fn insert_grows_window_to_hold_the_number() {
    let mut array = PacketsArray::<u8>::new();
    assert_eq!(array.insert(0, 10), Ok(()));
    assert_eq!((array.buffer_start, array.buffer_end), (0, 1));
    assert_eq!(array.insert(5, 15), Ok(()));
    assert_eq!((array.buffer_start, array.buffer_end), (0, 6));
    // a number inside the window leaves the end where it is
    assert_eq!(array.insert(3, 13), Ok(()));
    assert_eq!((array.buffer_start, array.buffer_end), (0, 6));
    assert_eq!(array.len(), 6);
    assert_eq!(array.get(0), Some(&10));
    assert_eq!(array.get(3), Some(&13));
    assert_eq!(array.get(5), Some(&15));
    assert_eq!(array.get(1), None);
    assert!(array.contains(3));
    assert!(!array.contains(4));
    assert_eq!(array.sequence_numbers(), vec![0, 3, 5]);
}

#[test]
fn insert_refuses_taken_slot_as_duplicate() {
    let mut array = PacketsArray::<u8>::new();
    assert_eq!(array.insert(7, 1), Ok(()));
    let before = array.clone();
    assert_eq!(array.insert(7, 2), Err(Error::Duplicate));
    assert_eq!(array, before);
    assert_eq!(array.get(7), Some(&1));
}

#[test]
fn insert_refuses_number_outside_reach_as_out_of_range() {
    let mut array = PacketsArray::<u8>::new();
    assert_eq!(array.insert(PACKETS_ARRAY_SIZE, 1), Err(Error::OutOfRange));
    assert_eq!(array.insert(u32::MAX, 1), Err(Error::OutOfRange));
    assert_eq!(array.len(), 0);
    // the last number in reach
    assert_eq!(array.insert(PACKETS_ARRAY_SIZE - 1, 1), Ok(()));
    assert_eq!(array.len(), 65536);
    assert_eq!(array.buffer_end, 65536);
}

#[test]
fn out_of_range_comes_before_duplicate() {
    let mut array = PacketsArray::<u8>::new();
    assert_eq!(array.insert(3, 1), Ok(()));
    // the same slot, one turn of the ring later
    assert_eq!(array.insert(3 + PACKETS_ARRAY_SIZE, 2), Err(Error::OutOfRange));
}

#[test]
fn remove_takes_the_packet_and_keeps_the_window() {
    let mut array = PacketsArray::<u8>::new();
    array.insert(0, 10).unwrap();
    array.insert(2, 12).unwrap();
    assert_eq!(array.remove(2), Some(12));
    assert_eq!(array.remove(2), None);
    assert_eq!(array.remove(1), None);
    assert_eq!(array.remove(9), None);
    assert_eq!((array.buffer_start, array.buffer_end), (0, 3));
    assert_eq!(array.sequence_numbers(), vec![0]);
    // the slot is free again
    assert_eq!(array.insert(2, 22), Ok(()));
    assert_eq!(array.get(2), Some(&22));
}

#[test]
fn pop_front_takes_only_the_first_number() {
    let mut array = PacketsArray::<u8>::new();
    assert_eq!(array.pop_front(), None);
    array.insert(1, 11).unwrap();
    // the first slot of the window is empty
    assert_eq!(array.pop_front(), None);
    assert_eq!(array.buffer_start, 0);
    array.insert(0, 10).unwrap();
    assert_eq!(array.pop_front(), Some((0, 10)));
    assert_eq!(array.buffer_start, 1);
    assert_eq!(array.pop_front(), Some((1, 11)));
    assert_eq!(array.buffer_start, 2);
    assert_eq!(array.buffer_end, 2);
    assert_eq!(array.pop_front(), None);
    assert_eq!(array.len(), 0);
}

#[test]
fn advance_start_to_drops_what_lies_before() {
    let mut array = PacketsArray::<u8>::new();
    for seq in 0..6 {
        array.insert(seq, seq as u8).unwrap();
    }
    assert_eq!(array.advance_start_to(4), Ok(()));
    assert_eq!((array.buffer_start, array.buffer_end), (4, 6));
    assert_eq!(array.sequence_numbers(), vec![4, 5]);
    for seq in 0..4 {
        assert!(!array.contains(seq));
        assert_eq!(array.get(seq), None);
    }
    // no slot of the buffer before the start is left occupied
    assert_eq!(array.buffer.iter().filter(|slot| slot.is_some()).count(), 2);
    // advancing to the start itself changes nothing
    let before = array.clone();
    assert_eq!(array.advance_start_to(4), Ok(()));
    assert_eq!(array, before);
}

#[test]
fn advance_start_to_beyond_end_moves_the_end_along() {
    let mut array = PacketsArray::<u8>::new();
    array.insert(0, 1).unwrap();
    array.insert(1, 2).unwrap();
    assert_eq!(array.advance_start_to(10), Ok(()));
    assert_eq!((array.buffer_start, array.buffer_end), (10, 10));
    assert_eq!(array.len(), 0);
    assert!(array.sequence_numbers().is_empty());
    assert_eq!(array.buffer.iter().filter(|slot| slot.is_some()).count(), 0);
}

#[test]
fn advance_start_to_fails_more_than_65536_places_on() {
    let mut array = PacketsArray::<u8>::new();
    array.insert(5, 1).unwrap();
    let before = array.clone();
    assert_eq!(array.advance_start_to(PACKETS_ARRAY_SIZE + 1), Err(Error::OutOfRange));
    assert_eq!(array.advance_start_to(u32::MAX), Err(Error::OutOfRange));
    assert_eq!(array, before);
    // exactly 65536 places on is allowed and empties the array
    assert_eq!(array.advance_start_to(PACKETS_ARRAY_SIZE), Ok(()));
    assert_eq!((array.buffer_start, array.buffer_end), (65536, 65536));
    assert!(!array.contains(5));
}

#[test]
fn sequence_numbers_wrap_round() {
    let mut array = PacketsArray::<u8>::new();
    // move the window to the last numbers before the wrap
    let mut start = 0u32;
    while start != u32::MAX - 1 {
        let step = (u32::MAX - 1 - start).min(PACKETS_ARRAY_SIZE);
        start += step;
        array.advance_start_to(start).unwrap();
    }
    assert_eq!(array.buffer_start, u32::MAX - 1);
    assert_eq!(array.insert(u32::MAX - 1, 1), Ok(()));
    assert_eq!(array.insert(u32::MAX, 2), Ok(()));
    assert_eq!(array.buffer_end, 0);
    assert_eq!(array.insert(0, 3), Ok(()));
    assert_eq!(array.insert(1, 4), Ok(()));
    assert_eq!(array.buffer_end, 2);
    assert_eq!(array.len(), 4);
    assert_eq!(array.sequence_numbers(), vec![u32::MAX - 1, u32::MAX, 0, 1]);
    assert_eq!(array.insert(u32::MAX - 2, 9), Err(Error::OutOfRange));
    assert_eq!(array.pop_front(), Some((u32::MAX - 1, 1)));
    assert_eq!(array.pop_front(), Some((u32::MAX, 2)));
    assert_eq!(array.pop_front(), Some((0, 3)));
    assert_eq!(array.buffer_start, 1);
    assert_eq!(array.advance_start_to(2), Ok(()));
    assert_eq!(array.len(), 0);
}

#[test]
fn occupied_slots_never_outnumber_the_window() {
    let mut array = PacketsArray::<u32>::new();
    let numbers = [5u32, 1, 70000, 3, 5, 65535, 0, 2, 65536, 4];
    for &seq in numbers.iter() {
        let _ = array.insert(seq, seq);
        let occupied = array.buffer.iter().filter(|slot| slot.is_some()).count() as u32;
        let window = array.buffer_end.wrapping_sub(array.buffer_start);
        assert!(occupied <= window);
        assert!(window <= PACKETS_ARRAY_SIZE);
        assert_eq!(array.len(), window);
        assert_eq!(array.sequence_numbers().len() as u32, occupied);
    }
    assert_eq!(array.sequence_numbers(), vec![0, 1, 2, 3, 4, 5, 65535]);
}
