use rental_bookings::escrow::Escrow;
use rental_bookings::places::PlaceRegistry;
use rental_bookings::places::PlaceType;
use rental_bookings::store::BookingsStore;
use rental_bookings::structures::BookingData;
use rental_bookings::structures::BookingState;
use rental_bookings::structures::Error;
use rental_bookings::utils::modify_timestamp;

const OWNER: u64 = 0;
const GUEST_A: u64 = 1;
const GUEST_B: u64 = 2;
const BASE_TOKEN_AMOUNT: u64 = 1000;
const EXISTENTIAL_DEPOSIT: u64 = 1;

fn create_hash(data: &str) -> Vec<u8> {
    let bytes = data.as_bytes();
    let mut array = vec![0u8; 32];
    array[..bytes.len()].copy_from_slice(bytes);
    array
}

fn generate_timestamp(year: i32, month: u32, day: u32, hour: u32, minute: u32, second: u32) -> u64 {
    chrono::NaiveDate::from_ymd_opt(year, month, day)
        .unwrap()
        .and_hms_opt(hour, minute, second)
        .unwrap()
        .and_utc()
        .timestamp()
        .try_into()
        .unwrap()
}

fn generate_timestamp_millis(
    year: i32,
    month: u32,
    day: u32,
    hour: u32,
    minute: u32,
    second: u32,
) -> u64 {
    chrono::NaiveDate::from_ymd_opt(year, month, day)
        .unwrap()
        .and_hms_opt(hour, minute, second)
        .unwrap()
        .and_utc()
        .timestamp_millis()
        .try_into()
        .unwrap()
}

fn build_with_funded_accounts() -> (PlaceRegistry, BookingsStore, Escrow) {
    let places = PlaceRegistry::new();
    let bookings = BookingsStore::new();
    let mut escrow = Escrow::new(EXISTENTIAL_DEPOSIT);
    escrow.deposit(OWNER, BASE_TOKEN_AMOUNT).unwrap();
    escrow.deposit(GUEST_A, BASE_TOKEN_AMOUNT).unwrap();
    escrow.deposit(GUEST_B, BASE_TOKEN_AMOUNT).unwrap();
    (places, bookings, escrow)
}

fn create_default_place(places: &mut PlaceRegistry) -> Vec<u8> {
    places
        .create_place(
            OWNER,
            PlaceType::Apartment,
            b"Demo Place".to_vec(),
            b"Demo Address".to_vec(),
            create_hash("Demo Description"),
            10,
            17,
            12,
            vec![create_hash("image_1"), create_hash("image_2")],
            None,
            0,
            0,
        )
        .unwrap()
}

fn build_with_default_place() -> (PlaceRegistry, BookingsStore, Escrow, Vec<u8>) {
    let (mut places, bookings, escrow) = build_with_funded_accounts();
    let place_id = create_default_place(&mut places);
    (places, bookings, escrow, place_id)
}

fn create_default_booking(
    places: &PlaceRegistry,
    bookings: &mut BookingsStore,
    escrow: &mut Escrow,
    place_id: &Vec<u8>,
) -> Vec<u8> {
    let start_date = generate_timestamp(2025, 4, 10, 17, 33, 44);
    let end_date = generate_timestamp(2025, 4, 13, 17, 33, 44);
    let amount = 3 * 10;
    bookings
        .create_booking(escrow, places, GUEST_A, place_id, start_date, end_date, amount, 0)
        .unwrap()
}

#[test]
fn test_modify_timestamp_function() {
    // Should work with seconds.
    let start_date = generate_timestamp(2025, 4, 10, 17, 33, 44);
    let end_date = generate_timestamp(2025, 4, 13, 17, 33, 44);
    let expected_start_date = generate_timestamp_millis(2025, 4, 10, 17, 0, 0);
    let expected_end_date = generate_timestamp_millis(2025, 4, 13, 12, 0, 0);
    assert_eq!(modify_timestamp(start_date, 17).unwrap(), expected_start_date);
    assert_eq!(modify_timestamp(end_date, 12).unwrap(), expected_end_date);

    // Should work with milliseconds.
    let start_date = generate_timestamp_millis(2025, 4, 10, 17, 33, 44);
    let end_date = generate_timestamp_millis(2025, 4, 13, 17, 33, 44);
    assert_eq!(modify_timestamp(start_date, 17).unwrap(), expected_start_date);
    assert_eq!(modify_timestamp(end_date, 12).unwrap(), expected_end_date);

    // "desired time out of range"
    let start_date = generate_timestamp_millis(2025, 4, 10, 17, 33, 44);
    assert_eq!(modify_timestamp(start_date, 25), Err(Error::DesiredTimeOutOfRange));
}

#[test]
fn test_create_booking_should_work() {
    let (places, mut bookings, mut escrow, place_id) = build_with_default_place();
    let place_data = places.get_place_by_id(&place_id).unwrap();
    let checkin_hour = place_data.checkin_hour;
    let checkout_hour = place_data.checkout_hour;
    let price_per_night = place_data.price_per_night;

    let start_date = generate_timestamp_millis(2025, 4, 10, 17, 33, 44);
    let end_date = generate_timestamp_millis(2025, 4, 13, 17, 33, 44);
    let amount = (13 - 10) * price_per_night;

    assert!(bookings
        .create_booking(&mut escrow, &places, GUEST_A, &place_id, start_date, end_date, amount, 0)
        .is_ok());

    let booking_id = bookings.get_all_bookings()[0].clone();
    let booking_data = bookings.get_booking_by_id(&booking_id);

    let formatted_start_date = modify_timestamp(start_date, checkin_hour).unwrap();
    let formatted_end_date = modify_timestamp(end_date, checkout_hour).unwrap();

    assert_eq!(
        booking_data,
        Some(&BookingData {
            place_id: place_id.clone(),
            host: 0,
            guest: 1,
            start_date: formatted_start_date,
            end_date: formatted_end_date,
            amount,
            state: BookingState::Created,
        })
    );

    // The guest's funds have been locked.
    assert_eq!(escrow.reserved_balance(GUEST_A), amount);
}

#[test]
fn test_create_booking_with_invalid_place_should_fail() {
    let (places, mut bookings, mut escrow, _place_id) = build_with_default_place();
    let start_date = generate_timestamp_millis(2025, 4, 10, 17, 33, 44);
    let end_date = generate_timestamp_millis(2025, 4, 13, 17, 33, 44);
    let amount = 10;
    let place_id = create_hash("dummy");
    assert_eq!(
        bookings.create_booking(
            &mut escrow,
            &places,
            GUEST_A,
            &place_id,
            start_date,
            end_date,
            amount,
            0
        ),
        Err(Error::PlaceNotFound)
    );
}

#[test]
fn test_create_booking_with_invalid_dates_should_fail() {
    let (places, mut bookings, mut escrow, place_id) = build_with_default_place();
    let start_date = generate_timestamp_millis(2025, 4, 10, 17, 33, 44);
    let end_date = generate_timestamp_millis(2025, 4, 13, 17, 33, 44);
    let amount = (13 - 10) * 10;
    // Switched dates.
    assert_eq!(
        bookings.create_booking(
            &mut escrow,
            &places,
            GUEST_A,
            &place_id,
            end_date,
            start_date,
            amount,
            0
        ),
        Err(Error::InvalidDates)
    );
}

#[test]
fn test_create_booking_without_funds_should_fail() {
    let (places, mut bookings, mut escrow, place_id) = build_with_default_place();
    let start_date = generate_timestamp_millis(2025, 4, 10, 17, 33, 44);
    let end_date = generate_timestamp_millis(2025, 4, 13, 17, 33, 44);
    let amount = (13 - 10) * 10;
    // Account 3 has no balance.
    assert_eq!(
        bookings.create_booking(&mut escrow, &places, 3, &place_id, start_date, end_date, amount, 0),
        Err(Error::NotEnoughFreeBalance)
    );
}

#[test]
fn test_create_booking_in_owned_place_should_fail() {
    let (places, mut bookings, mut escrow, place_id) = build_with_default_place();
    let start_date = generate_timestamp_millis(2025, 4, 10, 17, 33, 44);
    let end_date = generate_timestamp_millis(2025, 4, 13, 17, 33, 44);
    let amount = (13 - 10) * 10;
    assert_eq!(
        bookings.create_booking(
            &mut escrow,
            &places,
            OWNER,
            &place_id,
            start_date,
            end_date,
            amount,
            0
        ),
        Err(Error::CannotBookOwnedPlace)
    );
}

#[test]
fn test_create_booking_with_outdated_start_day_should_fail() {
    let (places, mut bookings, mut escrow, place_id) = build_with_default_place();
    let start_date = generate_timestamp_millis(2025, 4, 10, 17, 33, 44);
    let end_date = generate_timestamp_millis(2025, 4, 13, 17, 33, 44);
    let amount = (13 - 10) * 10;
    // The clock stands just past the normalized start.
    let now = modify_timestamp(start_date, 17).unwrap() + 1;
    assert_eq!(
        bookings.create_booking(
            &mut escrow,
            &places,
            GUEST_A,
            &place_id,
            start_date,
            end_date,
            amount,
            now
        ),
        Err(Error::InvalidStartDate)
    );
}

#[test]
fn test_confirm_booking_should_work() {
    let (places, mut bookings, mut escrow, place_id) = build_with_default_place();
    let booking_id = create_default_booking(&places, &mut bookings, &mut escrow, &place_id);
    assert!(bookings.confirm_booking(&mut escrow, OWNER, &booking_id, 0).is_ok());
    let booking_data = bookings.get_booking_by_id(&booking_id).unwrap();
    assert_eq!(booking_data.state, BookingState::Confirmed);
}

#[test]
fn test_confirm_missing_booking_should_fail() {
    let (_places, mut bookings, mut escrow, _place_id) = build_with_default_place();
    let booking_id = create_hash("dummy");
    assert_eq!(
        bookings.confirm_booking(&mut escrow, GUEST_A, &booking_id, 0),
        Err(Error::BookingNotFound)
    );
}

#[test]
fn test_confirm_booking_not_owner_should_fail() {
    let (places, mut bookings, mut escrow, place_id) = build_with_default_place();
    let booking_id = create_default_booking(&places, &mut bookings, &mut escrow, &place_id);
    assert_eq!(
        bookings.confirm_booking(&mut escrow, GUEST_A, &booking_id, 0),
        Err(Error::NotPlaceOwner)
    );
}

#[test]
fn test_confirm_booking_with_wrong_state_should_fail() {
    let (places, mut bookings, mut escrow, place_id) = build_with_default_place();
    let booking_id = create_default_booking(&places, &mut bookings, &mut escrow, &place_id);
    // Drive the booking out of `Created` first.
    bookings.confirm_booking(&mut escrow, OWNER, &booking_id, 0).unwrap();
    assert_eq!(
        bookings.confirm_booking(&mut escrow, OWNER, &booking_id, 0),
        Err(Error::WrongState)
    );
}

#[test]
fn test_confirm_outdated_booking_should_fail() {
    let (places, mut bookings, mut escrow, place_id) = build_with_default_place();
    let booking_id = create_default_booking(&places, &mut bookings, &mut escrow, &place_id);
    let start_date = bookings.get_booking_by_id(&booking_id).unwrap().start_date;
    assert_eq!(
        bookings.confirm_booking(&mut escrow, OWNER, &booking_id, start_date + 1),
        Err(Error::CannotConfirmOutdatedBooking)
    );
}

#[test]
fn test_reject_booking_should_work() {
    let (places, mut bookings, mut escrow, place_id) = build_with_default_place();
    let booking_id = create_default_booking(&places, &mut bookings, &mut escrow, &place_id);
    let amount = bookings.get_booking_by_id(&booking_id).unwrap().amount;

    assert!(bookings.reject_booking(&mut escrow, OWNER, &booking_id).is_ok());

    let booking_data = bookings.get_booking_by_id(&booking_id).unwrap();
    assert_eq!(booking_data.state, BookingState::Rejected);

    // The structures have been updated correctly.
    assert_eq!(bookings.get_place_bookings(&place_id), Vec::<Vec<u8>>::new());
    assert_eq!(
        bookings.get_pending_booking_withdraws_by_account(OWNER),
        Vec::<(Vec<u8>, u64)>::new()
    );
    assert_eq!(
        bookings.get_pending_booking_withdraws_by_account(GUEST_A),
        vec![(booking_id.clone(), amount)]
    );
}

#[test]
fn test_checkin_confirmed_booking_should_work() {
    let (places, mut bookings, mut escrow, place_id) = build_with_default_place();
    let booking_id = create_default_booking(&places, &mut bookings, &mut escrow, &place_id);
    bookings.confirm_booking(&mut escrow, OWNER, &booking_id, 0).unwrap();
    let start_date = bookings.get_booking_by_id(&booking_id).unwrap().start_date;
    assert!(bookings.checkin(GUEST_A, &booking_id, start_date + 1).is_ok());
    let booking_data = bookings.get_booking_by_id(&booking_id).unwrap();
    assert_eq!(booking_data.state, BookingState::OwnerCanWithdraw);
}

#[test]
fn test_checkin_booking_with_wrong_guest_should_fail() {
    let (places, mut bookings, mut escrow, place_id) = build_with_default_place();
    let booking_id = create_default_booking(&places, &mut bookings, &mut escrow, &place_id);
    bookings.confirm_booking(&mut escrow, OWNER, &booking_id, 0).unwrap();
    let start_date = bookings.get_booking_by_id(&booking_id).unwrap().start_date;
    assert_eq!(
        bookings.checkin(GUEST_B, &booking_id, start_date + 1),
        Err(Error::NotPlaceGuest)
    );
}

#[test]
fn test_checkin_booking_earlier_should_fail() {
    let (places, mut bookings, mut escrow, place_id) = build_with_default_place();
    let booking_id = create_default_booking(&places, &mut bookings, &mut escrow, &place_id);
    bookings.confirm_booking(&mut escrow, OWNER, &booking_id, 0).unwrap();
    assert_eq!(bookings.checkin(GUEST_A, &booking_id, 0), Err(Error::CheckinNotAvailableYet));
}

#[test]
fn test_withdraw_checked_in_booking_should_work() {
    // Caller: OWNER.
    let (places, mut bookings, mut escrow, place_id) = build_with_default_place();
    let booking_id = create_default_booking(&places, &mut bookings, &mut escrow, &place_id);
    bookings.confirm_booking(&mut escrow, OWNER, &booking_id, 0).unwrap();
    let start_date = bookings.get_booking_by_id(&booking_id).unwrap().start_date;
    assert!(bookings.checkin(GUEST_A, &booking_id, start_date + 1).is_ok());

    // As the owner, withdraw the booking.
    assert!(bookings.withdraw_booking(&mut escrow, OWNER, &booking_id).is_ok());

    let booking_data = bookings.get_booking_by_id(&booking_id).unwrap();
    let amount = booking_data.amount;
    assert_eq!(booking_data.state, BookingState::Completed);

    // The owner has successfully withdrawn the funds.
    assert_eq!(escrow.total_balance(OWNER), BASE_TOKEN_AMOUNT + amount);
    // The guest has less funds.
    assert_eq!(escrow.total_balance(GUEST_A), BASE_TOKEN_AMOUNT - amount);

    // The structures have been updated correctly.
    assert_eq!(bookings.get_place_bookings(&booking_id), Vec::<Vec<u8>>::new());
    assert_eq!(
        bookings.get_pending_booking_withdraws_by_account(OWNER),
        Vec::<(Vec<u8>, u64)>::new()
    );
    assert_eq!(bookings.get_place_bookings(&place_id), Vec::<Vec<u8>>::new());
}

#[test]
fn test_withdraw_rejected_booking_should_work() {
    // Caller: GUEST_A.
    let (places, mut bookings, mut escrow, place_id) = build_with_default_place();
    let booking_id = create_default_booking(&places, &mut bookings, &mut escrow, &place_id);

    // Reject the booking.
    assert!(bookings.reject_booking(&mut escrow, OWNER, &booking_id).is_ok());

    // As the guest, withdraw the rejected booking.
    assert!(bookings.withdraw_booking(&mut escrow, GUEST_A, &booking_id).is_ok());

    let booking_data = bookings.get_booking_by_id(&booking_id).unwrap();
    assert_eq!(booking_data.state, BookingState::Completed);

    // The guest has successfully unreserved the funds.
    assert_eq!(escrow.reserved_balance(GUEST_A), 0);

    // The structures have been updated correctly.
    assert_eq!(bookings.get_place_bookings(&booking_id), Vec::<Vec<u8>>::new());
    assert_eq!(
        bookings.get_pending_booking_withdraws_by_account(OWNER),
        Vec::<(Vec<u8>, u64)>::new()
    );
    assert_eq!(
        bookings.get_pending_booking_withdraws_by_account(GUEST_A),
        Vec::<(Vec<u8>, u64)>::new()
    );
    assert_eq!(bookings.get_place_bookings(&place_id), Vec::<Vec<u8>>::new());
}
