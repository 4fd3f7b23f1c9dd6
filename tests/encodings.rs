use battleship::location::{self, Location};
use battleship::player::{PlayerTurn, PlayerType};
use battleship::ship::{ships_from_str, ships_to_string, Ship, ShipType};
use battleship::shot::Shot;
use battleship::text::ParseError;

#[test]
fn to_string() {
    let location = Location { row: 5, col: 7 };
    let serialized = location.to_string();
    assert_eq!(serialized, "7,5");
}

#[test]
fn from_string() {
    let serialized = "9,11";
    let location = Location::from_str(serialized);
    assert!(location.is_ok());
    assert!(location.unwrap().eq(&Location { row: 11, col: 9 }));
}

#[test]
fn locations_to_string() {
    let locations: Vec<Location> = vec![
        Location { row: 0, col: 0 },
        Location { row: 1, col: 2 },
        Location { row: 3, col: 4 },
    ];
    let serialized = location::locations_to_string(&locations);
    assert_eq!(serialized, "0,0;2,1;4,3")
}

#[test]
fn locations_from_string() {
    let serialized = "5,6;7,8;9,10";
    let locations = location::locations_from_string(serialized);
    let expected: Vec<Location> = vec![
        Location { row: 6, col: 5 },
        Location { row: 8, col: 7 },
        Location { row: 10, col: 9 },
    ];
    assert!(locations.is_ok());
    assert!(locations.unwrap().eq(&expected));
}

#[test]
fn ship_type_to_string() {
    assert_eq!(ShipType::Battleship.to_string(), String::from("Battleship"));
    assert_eq!(ShipType::Carrier.to_string(), String::from("Carrier"));
    assert_eq!(ShipType::Cruiser.to_string(), String::from("Cruiser"));
    assert_eq!(ShipType::Destroyer.to_string(), String::from("Destroyer"));
    assert_eq!(ShipType::Submarine.to_string(), String::from("Submarine"))
}

#[test]
fn ship_type_from_string() {
    let battleship = ShipType::from_str(&String::from("Battleship"));
    let carrier = ShipType::from_str(&String::from("Carrier"));
    let cruiser = ShipType::from_str(&String::from("Cruiser"));
    let destroyer = ShipType::from_str(&String::from("Destroyer"));
    let submarine = ShipType::from_str(&String::from("Submarine"));
    assert!(battleship.is_ok());
    assert!(battleship.unwrap().eq(&ShipType::Battleship));

    assert!(carrier.is_ok());
    assert!(carrier.unwrap().eq(&ShipType::Carrier));

    assert!(cruiser.is_ok());
    assert!(cruiser.unwrap().eq(&ShipType::Cruiser));

    assert!(destroyer.is_ok());
    assert!(destroyer.unwrap().eq(&ShipType::Destroyer));

    assert!(submarine.is_ok());
    assert!(submarine.unwrap().eq(&ShipType::Submarine));
}

#[test]
fn ship_to_string() {
    let ship = Ship {
        class: ShipType::Cruiser,
        hits: 1,
        locations: vec![
            Location { row: 0, col: 0 },
            Location { row: 1, col: 2 },
            Location { row: 3, col: 4 },
        ],
    };
    let serialized = ship.to_string();
    assert_eq!(serialized, "Cruiser|1|0,0;2,1;4,3")
}

#[test]
fn ship_from_string() {
    let serialized = "Destroyer|2|0,0;2,1";
    let ship = Ship::from_str(serialized);
    assert!(ship.is_ok());
    assert!(ship.unwrap().eq(&Ship {
        class: ShipType::Destroyer,
        hits: 2,
        locations: vec![Location { row: 0, col: 0 }, Location { row: 1, col: 2 }]
    }))
}

#[test]
fn serialize_ships_to_string() {
    let ships: Vec<Ship> = vec![
        Ship {
            class: ShipType::Submarine,
            locations: vec![Location { row: 0, col: 0 }, Location { row: 1, col: 0 }],
            hits: 0,
        },
        Ship {
            class: ShipType::Destroyer,
            locations: vec![Location { row: 0, col: 1 }, Location { row: 1, col: 1 }],
            hits: 0,
        },
    ];
    let string = ships_to_string(&ships);
    assert_eq!(string, String::from("Submarine|0|0,0;0,1&Destroyer|0|1,0;1,1"));
}

#[test]
fn shot_to_string() {
    let shot = Shot { location: Location { row: 3, col: 5 }, hit: false };
    let str = shot.to_string();
    assert_eq!(str, "5,3|false");
}

#[test]
fn shot_from_string() {
    let shot = Shot::from_str("5,2|true").unwrap();
    assert!(Location { row: 2, col: 5 }.eq(&shot.location));
    assert!(&shot.hit);
}

#[test]
fn destroyer_round_trip() {
    let ship = Ship {
        class: ShipType::Destroyer,
        hits: 2,
        locations: vec![Location { row: 0, col: 0 }, Location { row: 1, col: 2 }],
    };
    let text = ship.to_string();
    assert_eq!(text, "Destroyer|2|0,0;2,1");
    assert_eq!(Ship::from_str(&text).unwrap(), ship);
}

#[test]
fn ships_round_trip() {
    let text = "Submarine|0|0,0;0,1&Destroyer|1|1,0;1,1";
    let ships = ships_from_str(text).unwrap();
    assert_eq!(ships.len(), 2);
    assert_eq!(ships[1].hits, 1);
    assert_eq!(ships_to_string(&ships), text);
    assert_eq!(
        ships_from_str("Submarine|0|0,0;0,1&Bogus|0|1,0;1,1").err(),
        Some(ParseError::ElementCount { expected: 2, found: 1 })
    );
}

#[test]
fn location_parse_errors() {
    assert_eq!(Location::from_str("1,2,3").err(), Some(ParseError::FieldCount { expected: 2, found: 3 }));
    assert_eq!(Location::from_str("7").err(), Some(ParseError::FieldCount { expected: 2, found: 1 }));
    // every piece must be a number, and there must be exactly two
    assert_eq!(Location::from_str("1,x,2").err(), Some(ParseError::FieldCount { expected: 2, found: 3 }));
    assert_eq!(Location::from_str("1,x").err(), Some(ParseError::InvalidNumber));
    assert_eq!(Location::from_str("x,1").err(), Some(ParseError::InvalidNumber));
    assert_eq!(Location::from_str("1,").err(), Some(ParseError::InvalidNumber));
    assert!(Shot::from_str("1,x,2|true").is_err());
    assert!(Ship::from_str("Destroyer|0|0,0;1,x,2").is_err());
    assert_eq!(Location::from_str("+3,04").unwrap(), Location { row: 4, col: 3 });
    assert!(Location::from_str("4294967296,1").is_err());
    assert_eq!(Location::from_str("4294967295,0").unwrap(), Location { row: 0, col: 4294967295 });
    assert!(Location::from_str("-1,0").is_err());
    assert_eq!(
        location::locations_from_string("1,1;bad;2,2").err(),
        Some(ParseError::ElementCount { expected: 3, found: 2 })
    );
    assert!(location::locations_from_string("").is_err());
    assert_eq!(location::locations_to_string(&Vec::new()), "");
}

#[test]
fn ship_parse_errors() {
    assert_eq!(Ship::from_str("Destroyer|2").err(), Some(ParseError::FieldCount { expected: 3, found: 2 }));
    assert_eq!(Ship::from_str("Canoe|0|0,0;0,1").err(), Some(ParseError::UnknownShipType));
    assert_eq!(Ship::from_str("Destroyer|many|0,0;0,1").err(), Some(ParseError::InvalidHits));
    assert_eq!(
        Ship::from_str("Cruiser|0|0,0;0,1").err(),
        Some(ParseError::LocationCount { expected: 3, found: 2 })
    );
    assert_eq!(ShipType::from_str("carrier").err(), Some(ParseError::UnknownShipType));
    assert_eq!(Ship::carrier().to_string(), "Carrier|0|");
    assert_eq!(ShipType::Carrier.size(), 5);
    assert_eq!(ShipType::Cruiser.size(), 3);
}

#[test]
fn shot_parse_is_lenient_about_hit() {
    assert!(Shot::from_str("1,1|True").unwrap().hit);
    assert!(!Shot::from_str("1,1|TRUE").unwrap().hit);
    assert!(!Shot::from_str("1,1|yes").unwrap().hit);
    assert_eq!(Shot::from_str("1,1").err(), Some(ParseError::FieldCount { expected: 2, found: 1 }));
    assert_eq!(Shot { location: Location { row: 0, col: 12 }, hit: true }.to_string(), "12,0|true");
}

#[test]
fn players_and_turns() {
    assert_eq!(PlayerType::other(&PlayerType::Player1), PlayerType::Player2);
    assert_eq!(PlayerType::other(&PlayerType::Player2), PlayerType::Player1);
    assert_eq!(PlayerTurn::from(&PlayerType::Player2), PlayerTurn::Player2);
    assert_eq!(PlayerType::Player1.name(), "Player 1");
    assert_eq!(PlayerTurn::Neither.name(), "Neither Player");
}

#[test]
fn named_constructors_start_unplaced() {
    for (ship, class) in [
        (Ship::carrier(), ShipType::Carrier),
        (Ship::battleship(), ShipType::Battleship),
        (Ship::cruiser(), ShipType::Cruiser),
        (Ship::submarine(), ShipType::Submarine),
        (Ship::destroyer(), ShipType::Destroyer),
    ] {
        assert_eq!(ship, Ship::new(class));
        assert!(ship.locations.is_empty());
        assert_eq!(ship.hits, 0);
        assert!(!ship.sunk());
    }
}
