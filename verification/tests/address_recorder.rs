use tracestore::address_recorder::{AddressRecorder, RangeEndpoint, RangeQueryError};
use tracestore::shared_structs::{TimeRange, TimeStamp};

#[test]
fn simple_insert() {
    let mut ar = AddressRecorder::new(2);
    ar.reset_ft_for_writing(1);
    ar.insert_address(0);
    ar.finished_writing_ft();
    ar.reset_ft_for_writing(2);
    ar.insert_address(1);
    ar.finished_writing_ft();
    let start = TimeStamp::new_at_ft(1);
    let end = TimeStamp::new_at_ft(2);
    let result: Vec<usize> = ar.get_addresses_in(&TimeRange { start, end }).unwrap().to_vec();
    assert_eq!(result, vec![0]);
}

#[test]
fn middle_end() {
    let mut ar = AddressRecorder::new(2);
    let start = TimeStamp::new_at_ft(1);
    let end = TimeStamp { frame_time: 2, addr: Some(5), instance_of_addr: Some(5) };
    ar.reset_ft_for_writing(1);
    ar.insert_address(0);
    ar.finished_writing_ft();
    ar.reset_ft_for_writing(2);
    ar.insert_address(1);
    ar.insert_address(3);
    ar.insert_address(4);
    ar.insert_timestamp(end.clone());
    ar.insert_address(5);
    ar.finished_writing_ft();
    let result: Vec<usize> = ar.get_addresses_in(&TimeRange { start, end }).unwrap().to_vec();
    assert_eq!(result, vec![0, 1, 3]);
}

#[test]
fn same_start_and_end() {
    let mut ar = AddressRecorder::new(2);
    let start = TimeStamp { frame_time: 1, addr: Some(1), instance_of_addr: Some(5) };
    let end = TimeStamp { frame_time: 1, addr: Some(5), instance_of_addr: Some(5) };
    ar.reset_ft_for_writing(1);
    ar.insert_address(0);
    ar.insert_address(1);
    ar.insert_timestamp(start.clone());
    ar.insert_address(3);
    ar.insert_address(4);
    ar.insert_timestamp(end.clone());
    ar.insert_address(5);
    ar.finished_writing_ft();
    let result: Vec<usize> = ar.get_addresses_in(&TimeRange { start, end }).unwrap().to_vec();
    assert_eq!(result, vec![1, 3]);
}

#[test]
fn missing_middle() {
    let mut ar = AddressRecorder::new(5);
    let start = TimeStamp { frame_time: 1, addr: Some(1), instance_of_addr: Some(5) };
    let end = TimeStamp { frame_time: 5, addr: Some(5), instance_of_addr: Some(5) };
    let second_end = TimeStamp { frame_time: 5, addr: Some(6), instance_of_addr: Some(5) };
    ar.reset_ft_for_writing(1);
    ar.insert_address(0);
    ar.insert_address(1);
    ar.insert_timestamp(start.clone());
    ar.insert_address(3);
    ar.finished_writing_ft();
    ar.reset_ft_for_writing(3);
    ar.insert_address(1000);
    ar.finished_writing_ft();
    ar.reset_ft_for_writing(5);
    ar.insert_address(4);
    ar.insert_timestamp(end.clone());
    ar.insert_address(5);
    ar.insert_timestamp(second_end.clone());
    ar.finished_writing_ft();
    let result: Vec<usize> = ar
        .get_addresses_in(&TimeRange { start: start.clone(), end })
        .unwrap()
        .to_vec();
    assert_eq!(result, vec![1, 3, 1000]);
    let result: Vec<usize> = ar
        .get_addresses_in(&TimeRange { start, end: second_end })
        .unwrap()
        .to_vec();
    assert_eq!(result, vec![1, 3, 1000, 4]);
}

#[test]
fn same_coordinate_yields_empty() {
    let mut ar = AddressRecorder::new(3);
    let mark = TimeStamp { frame_time: 1, addr: Some(9), instance_of_addr: Some(0) };
    ar.reset_ft_for_writing(1);
    ar.insert_address(7);
    ar.insert_address(9);
    ar.insert_timestamp(mark.clone());
    ar.insert_address(11);
    ar.finished_writing_ft();
    let result: Vec<usize> = ar
        .get_addresses_in(&TimeRange { start: mark.clone(), end: mark })
        .unwrap()
        .to_vec();
    assert_eq!(result, Vec::<usize>::new());
}

#[test]
fn unknown_start_coordinate_fails() {
    let mut ar = AddressRecorder::new(2);
    ar.reset_ft_for_writing(1);
    ar.insert_address(0);
    ar.finished_writing_ft();
    let start = TimeStamp { frame_time: 1, addr: Some(42), instance_of_addr: None };
    let end = TimeStamp::new_at_ft(1);
    let err = ar.get_addresses_in(&TimeRange { start, end }).unwrap_err();
    assert_eq!(err, RangeQueryError::InvalidRangeEndpoint(RangeEndpoint::Start));
}

#[test]
fn unknown_end_coordinate_fails() {
    let mut ar = AddressRecorder::new(2);
    ar.reset_ft_for_writing(1);
    ar.insert_address(0);
    ar.finished_writing_ft();
    let start = TimeStamp::new_at_ft(1);
    let end = TimeStamp { frame_time: 2, addr: None, instance_of_addr: None };
    let err = ar.get_addresses_in(&TimeRange { start, end }).unwrap_err();
    assert_eq!(err, RangeQueryError::InvalidRangeEndpoint(RangeEndpoint::End));
}

#[test]
fn reversed_checkpoints_fail() {
    let mut ar = AddressRecorder::new(2);
    ar.reset_ft_for_writing(1);
    ar.insert_address(0);
    ar.finished_writing_ft();
    ar.reset_ft_for_writing(2);
    ar.insert_address(1);
    ar.finished_writing_ft();
    let start = TimeStamp::new_at_ft(2);
    let end = TimeStamp::new_at_ft(1);
    let err = ar.get_addresses_in(&TimeRange { start, end }).unwrap_err();
    assert_eq!(err, RangeQueryError::RangeOutOfOrder);
}

#[test]
fn reversed_positions_fail() {
    let mut ar = AddressRecorder::new(2);
    let early = TimeStamp { frame_time: 1, addr: Some(3), instance_of_addr: None };
    let late = TimeStamp { frame_time: 1, addr: Some(4), instance_of_addr: None };
    ar.reset_ft_for_writing(1);
    ar.insert_address(3);
    ar.insert_timestamp(early.clone());
    ar.insert_address(4);
    ar.insert_timestamp(late.clone());
    ar.finished_writing_ft();
    let err = ar.get_addresses_in(&TimeRange { start: late, end: early }).unwrap_err();
    assert_eq!(err, RangeQueryError::RangeOutOfOrder);
}

#[test]
fn end_in_uncaptured_checkpoint_fails() {
    let mut ar = AddressRecorder::new(3);
    ar.reset_ft_for_writing(1);
    ar.insert_address(0);
    ar.finished_writing_ft();
    // checkpoint 2 is opened and closed without any captured address
    ar.reset_ft_for_writing(2);
    ar.finished_writing_ft();
    let start = TimeStamp::new_at_ft(1);
    let end = TimeStamp::new_at_ft(2);
    let err = ar.get_addresses_in(&TimeRange { start, end }).unwrap_err();
    assert_eq!(err, RangeQueryError::TraceNotCaptured);
}

#[test]
fn rewriting_discards_previous_contents() {
    let mut ar = AddressRecorder::new(2);
    let stale = TimeStamp { frame_time: 1, addr: Some(8), instance_of_addr: None };
    ar.reset_ft_for_writing(1);
    ar.insert_address(8);
    ar.insert_timestamp(stale.clone());
    ar.insert_address(9);
    ar.finished_writing_ft();
    // re-running the reset discards both the addresses and the marks
    ar.reset_ft_for_writing(1);
    ar.insert_address(21);
    ar.finished_writing_ft();
    ar.reset_ft_for_writing(2);
    ar.insert_address(22);
    ar.finished_writing_ft();
    let err = ar
        .get_addresses_in(&TimeRange { start: stale, end: TimeStamp::new_at_ft(2) })
        .unwrap_err();
    assert_eq!(err, RangeQueryError::InvalidRangeEndpoint(RangeEndpoint::Start));
    let result: Vec<usize> = ar
        .get_addresses_in(&TimeRange {
            start: TimeStamp::new_at_ft(1),
            end: TimeStamp::new_at_ft(2),
        })
        .unwrap()
        .to_vec();
    assert_eq!(result, vec![21]);
}

#[test]
fn iterator_yields_one_address_at_a_time() {
    let mut ar = AddressRecorder::new(2);
    ar.reset_ft_for_writing(1);
    ar.insert_address(5);
    ar.insert_address(6);
    ar.finished_writing_ft();
    ar.reset_ft_for_writing(2);
    ar.insert_address(7);
    ar.finished_writing_ft();
    let range = TimeRange { start: TimeStamp::new_at_ft(1), end: TimeStamp::new_at_ft(2) };
    let mut it = ar.get_addresses_in(&range).unwrap();
    assert_eq!(it.next(), Some(5));
    assert_eq!(it.next(), Some(6));
    assert_eq!(it.next(), None);
    assert_eq!(it.next(), None);
}

#[test]
fn occurrences_report_marks_whose_address_matches() {
    let mut ar = AddressRecorder::new(3);
    let hit_one = TimeStamp { frame_time: 1, addr: Some(40), instance_of_addr: Some(0) };
    let miss = TimeStamp { frame_time: 1, addr: Some(41), instance_of_addr: Some(0) };
    let hit_two = TimeStamp { frame_time: 2, addr: Some(40), instance_of_addr: Some(1) };
    ar.reset_ft_for_writing(1);
    ar.insert_address(40);
    ar.insert_timestamp(hit_one.clone());
    ar.insert_address(41);
    ar.insert_timestamp(miss.clone());
    ar.finished_writing_ft();
    ar.reset_ft_for_writing(2);
    ar.insert_address(40);
    ar.insert_timestamp(hit_two.clone());
    ar.finished_writing_ft();
    // the sentinel of each checkpoint names position 0, which holds 40 too
    let occurrences = ar.get_addr_occurrences(40);
    assert_eq!(
        occurrences,
        vec![TimeStamp::new_at_ft(1), hit_one, TimeStamp::new_at_ft(2), hit_two]
    );
    assert_eq!(ar.get_addr_occurrences(99), Vec::<TimeStamp>::new());
}
