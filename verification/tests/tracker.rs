use multisig::error::Error;
use multisig::ids::Fingerprint;
use multisig::tracker::ApprovalTracker;

fn request(tag: u8) -> Fingerprint {
    Fingerprint([tag; 32])
}

#[test]
fn tracker_starts_without_records() {
    let tracker = ApprovalTracker::new();
    assert_eq!(tracker.bitmask(&request(1)).bits, 0);
}

#[test]
fn first_approval_makes_a_record_with_one_bit() {
    let mut tracker = ApprovalTracker::new();
    assert_eq!(tracker.approve(&request(1), 2, 3), Ok(false));
    assert_eq!(tracker.bitmask(&request(1)).bits, 0b100);
    assert_eq!(tracker.bitmask(&request(2)).bits, 0);
}

#[test]
fn approvals_are_or_ed_into_the_record() {
    let mut tracker = ApprovalTracker::new();
    assert_eq!(tracker.approve(&request(1), 0, 4), Ok(false));
    assert_eq!(tracker.approve(&request(1), 3, 4), Ok(false));
    assert_eq!(tracker.approve(&request(1), 63, 4), Ok(false));
    assert_eq!(tracker.bitmask(&request(1)).bits, 0x8000_0000_0000_0009);
}

#[test]
fn second_approval_by_one_position_is_refused() {
    let mut tracker = ApprovalTracker::new();
    assert_eq!(tracker.approve(&request(1), 5, 2), Ok(false));
    assert_eq!(tracker.approve(&request(1), 5, 2), Err(Error::AlreadyApproved));
    assert_eq!(tracker.bitmask(&request(1)).bits, 1 << 5);
}

#[test]
fn reaching_the_threshold_deletes_the_record() {
    let mut tracker = ApprovalTracker::new();
    assert_eq!(tracker.approve(&request(1), 0, 2), Ok(false));
    assert_eq!(tracker.approve(&request(1), 1, 2), Ok(true));
    assert_eq!(tracker.bitmask(&request(1)).bits, 0);
    assert_eq!(tracker.approve(&request(1), 1, 2), Ok(false));
    assert_eq!(tracker.bitmask(&request(1)).bits, 0b10);
}

#[test]
fn threshold_of_one_is_reached_at_once() {
    let mut tracker = ApprovalTracker::new();
    assert_eq!(tracker.approve(&request(1), 4, 1), Ok(true));
    assert_eq!(tracker.bitmask(&request(1)).bits, 0);
    assert_eq!(tracker.approve(&request(1), 4, 1), Ok(true));
}

#[test]
fn threshold_is_reached_in_any_order() {
    let orders = [[0usize, 1, 2], [0, 2, 1], [1, 0, 2], [1, 2, 0], [2, 0, 1], [2, 1, 0]];
    for order in orders {
        let mut tracker = ApprovalTracker::new();
        assert_eq!(tracker.approve(&request(9), order[0], 3), Ok(false));
        assert_eq!(tracker.approve(&request(9), order[1], 3), Ok(false));
        assert_eq!(tracker.approve(&request(9), order[2], 3), Ok(true));
        assert_eq!(tracker.bitmask(&request(9)).bits, 0);
    }
}

#[test]
fn records_of_different_requests_do_not_mix() {
    let mut tracker = ApprovalTracker::new();
    assert_eq!(tracker.approve(&request(1), 0, 2), Ok(false));
    assert_eq!(tracker.approve(&request(2), 0, 2), Ok(false));
    assert_eq!(tracker.approve(&request(2), 1, 2), Ok(true));
    assert_eq!(tracker.bitmask(&request(1)).bits, 1);
    assert_eq!(tracker.bitmask(&request(2)).bits, 0);
}

#[test]
fn approvals_beyond_the_threshold_stay_pending() {
    let mut tracker = ApprovalTracker::new();
    assert_eq!(tracker.approve(&request(1), 0, 3), Ok(false));
    assert_eq!(tracker.approve(&request(1), 1, 3), Ok(false));
    assert_eq!(tracker.approve(&request(1), 2, 2), Ok(false));
    assert_eq!(tracker.bitmask(&request(1)).bits, 0b111);
}
