use rental_bookings::places::AuditTrail;
use rental_bookings::places::Error;
use rental_bookings::places::PlaceData;
use rental_bookings::places::PlaceRegistry;
use rental_bookings::places::PlaceType;

fn create_hash(data: &str) -> Vec<u8> {
    let bytes = data.as_bytes();
    let mut array = vec![0u8; 32];
    array[..bytes.len()].copy_from_slice(bytes);
    array
}

fn create_default_place(places: &mut PlaceRegistry) -> Vec<u8> {
    places
        .create_place(
            1,
            PlaceType::Apartment,
            b"Demo Place".to_vec(),
            b"Demo Address".to_vec(),
            create_hash("Demo Description"),
            10,
            17,
            12,
            vec![create_hash("image_1"), create_hash("image_2")],
            None,
            0,
            0,
        )
        .unwrap()
}

#[test]
fn test_create_place_should_work() {
    let mut places = PlaceRegistry::new();
    assert!(places
        .create_place(
            1,
            PlaceType::Apartment,
            b"Demo Place".to_vec(),
            b"Demo Address".to_vec(),
            create_hash("Demo Description"),
            10,
            17,
            12,
            vec![create_hash("image_1"), create_hash("image_2")],
            None,
            0,
            0,
        )
        .is_ok());

    let place_id = places.get_all_places()[0].clone();
    let place_data = places.get_place_by_id(&place_id);

    // The place has been created correctly.
    assert_eq!(
        place_data,
        Some(&PlaceData {
            place_type: PlaceType::Apartment,
            name: b"Demo Place".to_vec(),
            address: b"Demo Address".to_vec(),
            description: create_hash("Demo Description"),
            price_per_night: 10,
            checkin_hour: 17,
            checkout_hour: 12,
            active: true,
            images: vec![create_hash("image_1"), create_hash("image_2")],
            number_of_floors: 1,
            owner: 1,
            on_chain_creation: AuditTrail { account: 1, block: 0, time: 0 },
            on_chain_update: None,
        })
    );
}

#[test]
fn test_update_place_should_work() {
    let mut places = PlaceRegistry::new();
    let place_id = create_default_place(&mut places);

    assert!(places
        .update_place(
            &place_id,
            Some(PlaceType::House),
            Some(b"Demo Place 2".to_vec()),
            Some(b"Demo Address 2".to_vec()),
            Some(create_hash("Demo Description 2")),
            Some(20),
            Some(18),
            Some(11),
            Some(vec![create_hash("image_3"), create_hash("image_2")]),
            Some(2),
            1,
            0,
            0,
        )
        .is_ok());

    let place_data = places.get_place_by_id(&place_id);

    // The place has been updated correctly; the images are united.
    assert_eq!(
        place_data,
        Some(&PlaceData {
            place_type: PlaceType::House,
            name: b"Demo Place 2".to_vec(),
            address: b"Demo Address 2".to_vec(),
            description: create_hash("Demo Description 2"),
            price_per_night: 20,
            checkin_hour: 18,
            checkout_hour: 11,
            active: true,
            images: vec![create_hash("image_1"), create_hash("image_2"), create_hash("image_3")],
            number_of_floors: 2,
            owner: 1,
            on_chain_creation: AuditTrail { account: 1, block: 0, time: 0 },
            on_chain_update: Some(AuditTrail { account: 1, block: 0, time: 0 }),
        })
    );
}

#[test]
fn test_remove_place_should_work() {
    let mut places = PlaceRegistry::new();
    let place_id = create_default_place(&mut places);

    assert!(places.remove_place(&place_id).is_ok());

    assert_eq!(places.get_all_places().len(), 0);
    assert_eq!(places.get_place_by_id(&place_id), None);
}

#[test]
fn test_create_place_hour_order_is_checked() {
    let mut places = PlaceRegistry::new();
    // The check-out hour must lie strictly before the check-in hour.
    assert_eq!(
        places.create_place(
            1,
            PlaceType::House,
            b"P".to_vec(),
            b"A".to_vec(),
            create_hash("d"),
            10,
            12,
            17,
            vec![],
            None,
            0,
            0,
        ),
        Err(Error::CheckoutHourCannotBeGreaterThanCheckinHour)
    );
    // Hours outside 1..=23 are refused.
    assert_eq!(
        places.create_place(
            1,
            PlaceType::House,
            b"P".to_vec(),
            b"A".to_vec(),
            create_hash("d"),
            10,
            25,
            12,
            vec![],
            None,
            0,
            0,
        ),
        Err(Error::BadHoursProvided)
    );
    assert_eq!(
        places.create_place(
            1,
            PlaceType::House,
            b"P".to_vec(),
            b"A".to_vec(),
            create_hash("d"),
            10,
            17,
            0,
            vec![],
            None,
            0,
            0,
        ),
        Err(Error::BadHoursProvided)
    );
}

#[test]
fn test_create_duplicate_place_should_fail() {
    let mut places = PlaceRegistry::new();
    let _ = create_default_place(&mut places);
    // The very same descriptive fields hash to the same id.
    assert_eq!(
        places.create_place(
            1,
            PlaceType::Apartment,
            b"Demo Place".to_vec(),
            b"Demo Address".to_vec(),
            create_hash("Demo Description"),
            10,
            17,
            12,
            vec![create_hash("image_1"), create_hash("image_2")],
            None,
            0,
            0,
        ),
        Err(Error::PlaceAlreadyExists)
    );
    assert_eq!(places.get_all_places().len(), 1);
}

#[test]
fn test_update_missing_place_should_fail() {
    let mut places = PlaceRegistry::new();
    assert_eq!(
        places.update_place(
            &create_hash("dummy"),
            None,
            None,
            None,
            None,
            None,
            None,
            None,
            None,
            None,
            1,
            0,
            0,
        ),
        Err(Error::UnhandledException)
    );
}

#[test]
fn test_remove_missing_place_should_fail() {
    let mut places = PlaceRegistry::new();
    assert_eq!(places.remove_place(&create_hash("dummy")), Err(Error::PlaceNotFound));
}

#[test]
fn test_place_images_are_deduplicated() {
    let mut places = PlaceRegistry::new();
    let place_id = places
        .create_place(
            1,
            PlaceType::Van,
            b"Van".to_vec(),
            b"Road".to_vec(),
            create_hash("d"),
            5,
            17,
            12,
            vec![create_hash("image_1"), create_hash("image_1"), create_hash("image_2")],
            None,
            0,
            0,
        )
        .unwrap();
    let place_data = places.get_place_by_id(&place_id).unwrap();
    assert_eq!(place_data.images, vec![create_hash("image_1"), create_hash("image_2")]);
}
