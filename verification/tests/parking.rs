use blockstream::parking::{
    CompactSpot, HandicappedSpot, LargeSpot, MotorbikeSpot, ParkingDisplayBoard, ParkingFloor,
    ParkingSpot, ParkingSpotType, SpotInfo, VehicleType,
};

#[test]
fn new_spots_are_free_and_keep_their_number() {
    let compact: CompactSpot<VehicleType> = CompactSpot::new(7);
    assert!(compact.is_free());
    assert_eq!(compact.get_number(), 7);
    assert_eq!(compact.get_type(), ParkingSpotType::Compact);
    let large: LargeSpot<VehicleType> = LargeSpot::new(8);
    assert_eq!(large.get_type(), ParkingSpotType::Large);
    let motorbike: MotorbikeSpot<VehicleType> = MotorbikeSpot::new(9);
    assert_eq!(motorbike.get_type(), ParkingSpotType::Motorbike);
    let handicapped: HandicappedSpot<VehicleType> = HandicappedSpot::new(10);
    assert_eq!(handicapped.get_type(), ParkingSpotType::Handicapped);
}

#[test]
fn assigning_and_removing_a_vehicle_flips_freedom() {
    let mut spot: CompactSpot<VehicleType> = CompactSpot::new(3);
    spot.assign_vehicle(VehicleType::Car);
    assert!(!spot.is_free());
    assert_eq!(spot.get_number(), 3);
    spot.remove_vehicle();
    assert!(spot.is_free());
}

#[test]
fn board_stores_and_returns_shown_spots() {
    let mut board: ParkingDisplayBoard<CompactSpot<VehicleType>, VehicleType> =
        ParkingDisplayBoard::new(1);
    let spot = CompactSpot::new(4);
    board.set_compact_free_spot(&spot);
    assert_eq!(board.get_compact_free_spot().get_number(), 4);
    let reserved = CompactSpot::new(6);
    board.set_handicapped_free_spot(&reserved);
    assert_eq!(board.get_handicapped_free_spot().get_number(), 6);
}

#[test]
fn board_reports_each_shown_slot_in_order() {
    let mut board: ParkingDisplayBoard<CompactSpot<VehicleType>, VehicleType> =
        ParkingDisplayBoard::new(1);
    assert!(board.empty_spot_report().is_empty());
    board.set_compact_free_spot(&CompactSpot::new(4));
    let mut taken = CompactSpot::new(9);
    taken.assign_vehicle(VehicleType::Car);
    board.set_handicapped_free_spot(&taken);
    let report = board.empty_spot_report();
    assert_eq!(
        report,
        vec![
            SpotInfo { number: 9, free: false, kind: ParkingSpotType::Compact },
            SpotInfo { number: 4, free: true, kind: ParkingSpotType::Compact },
        ]
    );
}

#[test]
fn add_parking_spot_files_by_type_and_replaces_same_numbers() {
    let mut floor: ParkingFloor<CompactSpot<VehicleType>, VehicleType> =
        ParkingFloor::new(String::from("ground"));
    floor.add_parking_spot(CompactSpot::new(1));
    floor.add_parking_spot(CompactSpot::new(2));
    assert_eq!(floor.compact_spots.len(), 2);
    // the same number again replaces the stored spot
    let mut replacement = CompactSpot::new(2);
    replacement.assign_vehicle(VehicleType::Car);
    floor.add_parking_spot(replacement);
    assert_eq!(floor.compact_spots.len(), 2);
    assert!(!floor.compact_spots[1].is_free());
    // other inventories stay empty
    assert_eq!(floor.large_spots.len(), 0);
    assert_eq!(floor.handicapped_spots.len(), 0);
}

#[test]
fn assigning_a_shown_spot_moves_the_board_to_the_next_free_one() {
    let mut floor: ParkingFloor<CompactSpot<VehicleType>, VehicleType> =
        ParkingFloor::new(String::from("ground"));
    let mut taken = CompactSpot::new(1);
    taken.assign_vehicle(VehicleType::Car);
    floor.add_parking_spot(taken);
    floor.add_parking_spot(CompactSpot::new(2));
    // the board still shows spot one as the free compact spot
    floor.display_board.set_compact_free_spot(&CompactSpot::new(1));
    // a customer takes spot one; the board must move on to spot two
    let mut arriving = CompactSpot::new(1);
    floor.assign_vehicle_to_spot(VehicleType::Car, &mut arriving);
    assert!(!arriving.is_free());
    assert_eq!(floor.display_board.get_compact_free_spot().get_number(), 2);
}

#[test]
fn board_keeps_showing_a_different_spot() {
    let mut floor: ParkingFloor<CompactSpot<VehicleType>, VehicleType> =
        ParkingFloor::new(String::from("ground"));
    floor.add_parking_spot(CompactSpot::new(5));
    floor.display_board.set_compact_free_spot(&CompactSpot::new(5));
    // taking a spot the board does not show leaves the board alone
    let mut other = CompactSpot::new(8);
    floor.assign_vehicle_to_spot(VehicleType::Car, &mut other);
    assert_eq!(floor.display_board.get_compact_free_spot().get_number(), 5);
}

#[test]
fn free_spot_frees_and_tallies_by_type() {
    let mut floor: ParkingFloor<CompactSpot<VehicleType>, VehicleType> =
        ParkingFloor::new(String::from("ground"));
    let mut spot = CompactSpot::new(1);
    spot.assign_vehicle(VehicleType::Car);
    floor.free_spot(&mut spot);
    assert!(spot.is_free());
    assert_eq!(floor.free_compact_spot_count, 1);
    assert_eq!(floor.free_large_spot_count, 0);
    let mut again = CompactSpot::new(2);
    again.assign_vehicle(VehicleType::Car);
    floor.free_spot(&mut again);
    assert_eq!(floor.free_compact_spot_count, 2);
}
