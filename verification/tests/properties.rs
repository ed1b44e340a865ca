use rental_bookings::escrow::Escrow;
use rental_bookings::hashing::compute_booking_id;
use rental_bookings::places::PlaceRegistry;
use rental_bookings::places::PlaceType;
use rental_bookings::store::BookingsStore;
use rental_bookings::structures::BookingHashingData;
use rental_bookings::structures::BookingState;
use rental_bookings::structures::Error;
use rental_bookings::utils::calculate_total_amount;
use rental_bookings::utils::modify_timestamp;
use rental_bookings::utils::u64_len;

const OWNER: u64 = 0;
const GUEST_A: u64 = 1;
const GUEST_B: u64 = 2;
const BASE_TOKEN_AMOUNT: u64 = 1000;

fn create_hash(data: &str) -> Vec<u8> {
    let bytes = data.as_bytes();
    let mut array = vec![0u8; 32];
    array[..bytes.len()].copy_from_slice(bytes);
    array
}

fn ts_millis(year: i32, month: u32, day: u32, hour: u32, minute: u32, second: u32) -> u64 {
    chrono::NaiveDate::from_ymd_opt(year, month, day)
        .unwrap()
        .and_hms_opt(hour, minute, second)
        .unwrap()
        .and_utc()
        .timestamp_millis()
        .try_into()
        .unwrap()
}

fn build_env(price_per_night: u64) -> (PlaceRegistry, BookingsStore, Escrow, Vec<u8>) {
    let mut places = PlaceRegistry::new();
    let bookings = BookingsStore::new();
    let mut escrow = Escrow::new(1);
    escrow.deposit(OWNER, BASE_TOKEN_AMOUNT).unwrap();
    escrow.deposit(GUEST_A, BASE_TOKEN_AMOUNT).unwrap();
    escrow.deposit(GUEST_B, BASE_TOKEN_AMOUNT).unwrap();
    let place_id = places
        .create_place(
            OWNER,
            PlaceType::Apartment,
            b"Demo Place".to_vec(),
            b"Demo Address".to_vec(),
            create_hash("Demo Description"),
            price_per_night,
            17,
            12,
            vec![create_hash("image_1")],
            None,
            0,
            0,
        )
        .unwrap();
    (places, bookings, escrow, place_id)
}

#[test]
fn test_digit_length() {
    assert_eq!(u64_len(0), 1);
    assert_eq!(u64_len(9), 1);
    assert_eq!(u64_len(10), 2);
    assert_eq!(u64_len(1_744_305_224), 10);
    assert_eq!(u64_len(1_744_305_224_000), 13);
    assert_eq!(u64_len(u64::MAX), 20);
}

#[test]
fn test_malformed_precision_is_rejected() {
    // 11 digits: neither seconds nor milliseconds precision.
    assert_eq!(modify_timestamp(17_443_052_240, 12), Err(Error::BadTimestampPrecision));
    // 9 digits.
    assert_eq!(modify_timestamp(174_430_522, 12), Err(Error::BadTimestampPrecision));
}

#[test]
fn test_price_of_partial_final_night() {
    // start day 10 at 17:00, end day 13 at 12:00: 2 whole days and 19 hours
    // elapsed, so three nights are billed.
    let start = ts_millis(2025, 4, 10, 17, 0, 0);
    let end = ts_millis(2025, 4, 13, 12, 0, 0);
    assert_eq!(end - start, 2 * 86_400_000 + 19 * 3_600_000);
    assert_eq!(calculate_total_amount(start, end, 10), Ok(30));
    // A swapped range underflows.
    assert_eq!(calculate_total_amount(end, start, 10), Err(Error::ArithmeticUnderflow));
    // An overflowing price is reported, not wrapped.
    assert_eq!(calculate_total_amount(start, end, u64::MAX / 2), Err(Error::ArithmeticOverflow));
}

#[test]
fn test_booking_id_is_a_digest() {
    let (places, mut bookings, mut escrow, place_id) = build_env(10);
    let start = ts_millis(2025, 4, 10, 17, 33, 44);
    let end = ts_millis(2025, 4, 13, 17, 33, 44);
    let id = bookings
        .create_booking(&mut escrow, &places, GUEST_A, &place_id, start, end, 30, 0)
        .unwrap();
    // A 32-byte digest, not any of the creation fields.
    assert_eq!(id.len(), 32);
    assert_ne!(id, place_id);
}

#[test]
fn test_create_records_host_claim() {
    let (places, mut bookings, mut escrow, place_id) = build_env(10);
    let start = ts_millis(2025, 4, 10, 17, 33, 44);
    let end = ts_millis(2025, 4, 13, 17, 33, 44);
    let id = bookings
        .create_booking(&mut escrow, &places, GUEST_A, &place_id, start, end, 30, 0)
        .unwrap();
    // Until the booking settles or is canceled, the claim belongs to the host.
    assert_eq!(
        bookings.get_pending_booking_withdraws_by_account(OWNER),
        vec![(id.clone(), 30)]
    );
    assert_eq!(
        bookings.get_pending_booking_withdraws_by_account(GUEST_A),
        Vec::<(Vec<u8>, u64)>::new()
    );
}

#[test]
fn test_booking_id_recomputes_from_creation_fields() {
    let (places, mut bookings, mut escrow, place_id) = build_env(10);
    let start = ts_millis(2025, 4, 10, 17, 33, 44);
    let end = ts_millis(2025, 4, 13, 17, 33, 44);
    let id = bookings
        .create_booking(&mut escrow, &places, GUEST_A, &place_id, start, end, 30, 0)
        .unwrap();
    // The id is a pure function of the immutable creation fields: projecting
    // the persisted record onto them and hashing again yields the same id,
    // whatever state the record has reached meanwhile.
    bookings.reject_booking(&mut escrow, OWNER, &id).unwrap();
    let record = bookings.get_booking_by_id(&id).unwrap().clone();
    let recomputed = compute_booking_id(&BookingHashingData::from(record));
    assert_eq!(recomputed, id);
}

#[test]
fn test_duplicate_create_is_rejected() {
    let (places, mut bookings, mut escrow, place_id) = build_env(10);
    let start = ts_millis(2025, 4, 10, 17, 33, 44);
    let end = ts_millis(2025, 4, 13, 17, 33, 44);
    let id = bookings
        .create_booking(&mut escrow, &places, GUEST_A, &place_id, start, end, 30, 0)
        .unwrap();
    // The same inputs derive the same id, so the resubmission is refused and
    // no second record appears.
    assert_eq!(
        bookings.create_booking(&mut escrow, &places, GUEST_A, &place_id, start, end, 30, 0),
        Err(Error::BookingAlreadyExists)
    );
    assert_eq!(bookings.get_all_bookings().len(), 1);
    assert_eq!(bookings.get_all_bookings()[0], id);
    assert_eq!(escrow.reserved_balance(GUEST_A), 30);
}

#[test]
fn test_amount_must_match_price_exactly() {
    let (places, mut bookings, mut escrow, place_id) = build_env(10);
    let start = ts_millis(2025, 4, 10, 17, 33, 44);
    let end = ts_millis(2025, 4, 13, 17, 33, 44);
    assert_eq!(
        bookings.create_booking(&mut escrow, &places, GUEST_A, &place_id, start, end, 29, 0),
        Err(Error::AmountTooLow)
    );
    assert_eq!(
        bookings.create_booking(&mut escrow, &places, GUEST_A, &place_id, start, end, 31, 0),
        Err(Error::AmountTooHigh)
    );
    assert_eq!(escrow.reserved_balance(GUEST_A), 0);
}

#[test]
fn test_overlap_rule_flags_only_containment() {
    // An active booking holds day 10 17:00 .. day 13 12:00.
    let (places, mut bookings, mut escrow, place_id) = build_env(10);
    let start = ts_millis(2025, 4, 10, 17, 33, 44);
    let end = ts_millis(2025, 4, 13, 17, 33, 44);
    let id = bookings
        .create_booking(&mut escrow, &places, GUEST_A, &place_id, start, end, 30, 0)
        .unwrap();
    // The availability scan skips bookings still in `Created`, so confirm it.
    bookings.confirm_booking(&mut escrow, OWNER, &id, 0).unwrap();

    let day = |d: u32, h: u32| ts_millis(2025, 4, d, h, 0, 0);
    // Strictly contained: rejected.
    assert!(!bookings.check_availability(&place_id, day(11, 17), day(12, 12)));
    // Exact match: rejected.
    assert!(!bookings.check_availability(&place_id, day(10, 17), day(13, 12)));
    // Strictly containing: rejected.
    assert!(!bookings.check_availability(&place_id, day(9, 17), day(14, 12)));
    // Partial overlap without containment: accepted under this rule.
    assert!(bookings.check_availability(&place_id, day(12, 17), day(15, 12)));
}

#[test]
fn test_confirm_evicts_conflicting_bookings() {
    let (places, mut bookings, mut escrow, place_id) = build_env(10);
    let start = ts_millis(2025, 4, 10, 17, 33, 44);
    let end = ts_millis(2025, 4, 13, 17, 33, 44);
    // Two guests compete for the same range; both are still `Created`, so the
    // second submission sees the dates as available.
    let id_a = bookings
        .create_booking(&mut escrow, &places, GUEST_A, &place_id, start, end, 30, 0)
        .unwrap();
    let id_b = bookings
        .create_booking(&mut escrow, &places, GUEST_B, &place_id, start, end, 30, 0)
        .unwrap();
    assert_ne!(id_a, id_b);
    assert_eq!(escrow.reserved_balance(GUEST_B), 30);

    // Confirming the first auto-rejects the second.
    bookings.confirm_booking(&mut escrow, OWNER, &id_a, 0).unwrap();
    assert_eq!(bookings.get_booking_by_id(&id_a).unwrap().state, BookingState::Confirmed);
    assert_eq!(bookings.get_booking_by_id(&id_b).unwrap().state, BookingState::Rejected);
    // The evicted guest's funds moved to that guest's pending claims.
    assert_eq!(escrow.reserved_balance(GUEST_B), 0);
    assert_eq!(
        bookings.get_pending_booking_withdraws_by_account(GUEST_B),
        vec![(id_b.clone(), 30)]
    );
    // Only the confirmed booking still competes for the dates.
    assert_eq!(bookings.get_place_bookings(&place_id), vec![id_a.clone()]);
}

#[test]
fn test_end_to_end_settlement() {
    // price_per_night = 10; start day 10 17:00, end day 13 12:00: amount 30.
    let (places, mut bookings, mut escrow, place_id) = build_env(10);
    let start = ts_millis(2025, 4, 10, 17, 33, 44);
    let end = ts_millis(2025, 4, 13, 17, 33, 44);
    let id = bookings
        .create_booking(&mut escrow, &places, GUEST_A, &place_id, start, end, 30, 0)
        .unwrap();
    assert_eq!(escrow.reserved_balance(GUEST_A), 30);

    let booking_start = bookings.get_booking_by_id(&id).unwrap().start_date;
    // The host confirms before the start.
    bookings.confirm_booking(&mut escrow, OWNER, &id, booking_start - 1).unwrap();
    assert_eq!(bookings.get_booking_by_id(&id).unwrap().state, BookingState::Confirmed);
    // The guest checks in at the start.
    bookings.checkin(GUEST_A, &id, booking_start).unwrap();
    assert_eq!(bookings.get_booking_by_id(&id).unwrap().state, BookingState::OwnerCanWithdraw);
    // The host withdraws.
    bookings.withdraw_booking(&mut escrow, OWNER, &id).unwrap();
    assert_eq!(bookings.get_booking_by_id(&id).unwrap().state, BookingState::Completed);
    assert_eq!(escrow.reserved_balance(GUEST_A), 0);
    assert_eq!(escrow.free_balance(GUEST_A), BASE_TOKEN_AMOUNT - 30);
    assert_eq!(escrow.free_balance(OWNER), BASE_TOKEN_AMOUNT + 30);
}

#[test]
fn test_rejection_returns_escrow_to_guest() {
    let (places, mut bookings, mut escrow, place_id) = build_env(10);
    let start = ts_millis(2025, 4, 10, 17, 33, 44);
    let end = ts_millis(2025, 4, 13, 17, 33, 44);
    let id = bookings
        .create_booking(&mut escrow, &places, GUEST_A, &place_id, start, end, 30, 0)
        .unwrap();
    assert_eq!(escrow.reserved_balance(GUEST_A), 30);

    // The host rejects: the reservation becomes a pending claim of 30.
    bookings.reject_booking(&mut escrow, OWNER, &id).unwrap();
    assert_eq!(escrow.reserved_balance(GUEST_A), 0);
    assert_eq!(
        bookings.get_pending_booking_withdraws_by_account(GUEST_A),
        vec![(id.clone(), 30)]
    );

    // The guest withdraws: back to the pre-booking level, no transfer to the host.
    bookings.withdraw_booking(&mut escrow, GUEST_A, &id).unwrap();
    assert_eq!(bookings.get_booking_by_id(&id).unwrap().state, BookingState::Completed);
    assert_eq!(escrow.reserved_balance(GUEST_A), 0);
    assert_eq!(escrow.free_balance(GUEST_A), BASE_TOKEN_AMOUNT);
    assert_eq!(escrow.total_balance(OWNER), BASE_TOKEN_AMOUNT);
}

#[test]
fn test_withdraw_wrong_state_and_unsupported_paths() {
    let (places, mut bookings, mut escrow, place_id) = build_env(10);
    let start = ts_millis(2025, 4, 10, 17, 33, 44);
    let end = ts_millis(2025, 4, 13, 17, 33, 44);
    let id = bookings
        .create_booking(&mut escrow, &places, GUEST_A, &place_id, start, end, 30, 0)
        .unwrap();
    // A `Created` booking cannot be settled.
    assert_eq!(bookings.withdraw_booking(&mut escrow, GUEST_A, &id), Err(Error::WrongState));
    // A missing booking is reported as such.
    assert_eq!(
        bookings.withdraw_booking(&mut escrow, GUEST_A, &create_hash("dummy")),
        Err(Error::BookingNotFound)
    );
    // Updating and guest-side cancelling are reserved extension points.
    assert_eq!(
        bookings.update_booking(GUEST_A, &id, &place_id, start, end, 30),
        Err(Error::NotImplemented)
    );
    assert_eq!(bookings.cancel_booking(GUEST_A, &id), Err(Error::NotImplemented));
}

#[test]
fn test_checkin_requires_confirmed_state() {
    let (places, mut bookings, mut escrow, place_id) = build_env(10);
    let start = ts_millis(2025, 4, 10, 17, 33, 44);
    let end = ts_millis(2025, 4, 13, 17, 33, 44);
    let id = bookings
        .create_booking(&mut escrow, &places, GUEST_A, &place_id, start, end, 30, 0)
        .unwrap();
    let booking_start = bookings.get_booking_by_id(&id).unwrap().start_date;
    assert_eq!(bookings.checkin(GUEST_A, &id, booking_start + 1), Err(Error::WrongState));
}

#[test]
fn test_host_withdraw_keeps_guest_alive() {
    // The guest books away its whole balance; settling the stay would leave
    // the account below the existential deposit, so the transfer is refused
    // and nothing moves.
    let mut places = PlaceRegistry::new();
    let mut bookings = BookingsStore::new();
    let mut escrow = Escrow::new(1);
    escrow.deposit(OWNER, BASE_TOKEN_AMOUNT).unwrap();
    escrow.deposit(GUEST_A, 30).unwrap();
    let place_id = places
        .create_place(
            OWNER,
            PlaceType::Boat,
            b"Boat".to_vec(),
            b"Pier".to_vec(),
            create_hash("d"),
            10,
            17,
            12,
            vec![],
            None,
            0,
            0,
        )
        .unwrap();
    let start = ts_millis(2025, 4, 10, 17, 33, 44);
    let end = ts_millis(2025, 4, 13, 17, 33, 44);
    let id = bookings
        .create_booking(&mut escrow, &places, GUEST_A, &place_id, start, end, 30, 0)
        .unwrap();
    bookings.confirm_booking(&mut escrow, OWNER, &id, 0).unwrap();
    let booking_start = bookings.get_booking_by_id(&id).unwrap().start_date;
    bookings.checkin(GUEST_A, &id, booking_start).unwrap();

    assert_eq!(
        bookings.withdraw_booking(&mut escrow, OWNER, &id),
        Err(Error::TransferWouldKillAccount)
    );
    // Nothing moved: the escrow is still reserved and the state unchanged.
    assert_eq!(escrow.reserved_balance(GUEST_A), 30);
    assert_eq!(escrow.free_balance(GUEST_A), 0);
    assert_eq!(
        bookings.get_booking_by_id(&id).unwrap().state,
        BookingState::OwnerCanWithdraw
    );
}

#[test]
fn test_escrow_operations() {
    let mut escrow = Escrow::new(5);
    escrow.deposit(7, 100).unwrap();
    assert!(escrow.can_reserve(7, 100));
    assert!(!escrow.can_reserve(7, 101));
    assert_eq!(escrow.reserve(7, 40), Ok(()));
    assert_eq!(escrow.free_balance(7), 60);
    assert_eq!(escrow.reserved_balance(7), 40);
    assert_eq!(escrow.reserve(7, 61), Err(Error::NotEnoughFreeBalance));
    // Unreserving is capped by what is actually reserved.
    escrow.unreserve(7, 50);
    assert_eq!(escrow.free_balance(7), 100);
    assert_eq!(escrow.reserved_balance(7), 0);
    // A keep-alive transfer may not cross the existential deposit.
    assert_eq!(escrow.transfer(7, 8, 96, true), Err(Error::TransferWouldKillAccount));
    assert_eq!(escrow.transfer(7, 8, 95, true), Ok(()));
    assert_eq!(escrow.free_balance(7), 5);
    assert_eq!(escrow.free_balance(8), 95);
    // A transfer to oneself moves nothing.
    assert_eq!(escrow.transfer(8, 8, 10, false), Ok(()));
    assert_eq!(escrow.free_balance(8), 95);
    assert_eq!(escrow.total_balance(7), 5);
}
