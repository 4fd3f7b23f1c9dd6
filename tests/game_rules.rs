use battleship::game::{
    expand, fire, place, ready, remove, ship_at, start, Direction, GameError, GameResult, GameState,
    GRID_HEIGHT, GRID_WIDTH,
};
use battleship::location::Location;
use battleship::player::{PlayerTurn, PlayerType};
use battleship::ship::{Ship, ShipType};

#[test]
fn can_place_ships() {
    let state = GameState::new();
    let player = PlayerType::Player1;
    let class = ShipType::Submarine;
    let state_2 = place(state, player, class, Location { row: 0, col: 0 }, Direction::Down);
    assert!(state_2.is_ok());
    let state_3 = place(state_2.unwrap(), player, class, Location { row: 0, col: 1 }, Direction::Down);
    assert!(state_3.is_ok());
}

#[test]
fn cant_place_extra_ships() {
    let state = GameState::new();
    let player = PlayerType::Player1;
    let class = ShipType::Submarine;
    let state_2 = place(state, player, class, Location { row: 0, col: 0 }, Direction::Down);
    assert!(state_2.is_ok());
    let state_3 = place(state_2.unwrap(), player, class, Location { row: 0, col: 1 }, Direction::Down);
    assert!(state_3.is_ok());
    let state_4 = place(state_3.unwrap(), player, class, Location { row: 0, col: 2 }, Direction::Down);
    assert!(state_4.is_err());
    assert!(state_4.err().unwrap().message().contains("There are no ships of class"));
}

#[test]
fn cant_place_ships_on_top_of_each_other() {
    let state = GameState::new();
    let player = PlayerType::Player1;
    let class = ShipType::Submarine;
    let state_2 = place(state, player, class, Location { row: 0, col: 0 }, Direction::Down);
    assert!(state_2.is_ok());
    let state_3 = place(state_2.unwrap(), player, class, Location { row: 0, col: 0 }, Direction::Down);
    assert!(state_3.is_err());
    assert!(state_3.err().unwrap().message().contains("as it would overlap another ship"));
}

#[test]
fn cant_place_ships_if_game_is_not_in_setup() {
    let mut state = GameState::new();
    state.result = GameResult::InProgress;
    let player = PlayerType::Player1;
    let class = ShipType::Submarine;

    let state_2 = place(state, player, class, Location { row: 0, col: 0 }, Direction::Down);
    assert!(state_2.is_err());
    assert!(state_2.err().unwrap().message().contains("after the game has started"));
}

#[test]
fn cant_fire_if_game_is_not_in_progress() {
    let state = GameState::new();
    let player = PlayerType::Player1;

    let state_2 = fire(state, player, &Location { row: 0, col: 0 });
    assert!(state_2.is_err());
    assert!(state_2.err().unwrap().message().contains("Cannot fire when game is not in progress"));
}

#[test]
fn cant_fire_if_not_players_turn() {
    let mut state = GameState::new();
    state.result = GameResult::InProgress;
    state.turn = PlayerTurn::Player1;
    let player = PlayerType::Player2;

    let state_2 = fire(state, player, &Location { row: 0, col: 0 });
    assert!(state_2.is_err());
    assert!(state_2.err().unwrap().message().contains("cannot fire, it is not their turn."));
}

#[test]
fn cant_fire_out_of_bounds() {
    let mut state = GameState::new();
    state.result = GameResult::InProgress;
    state.turn = PlayerTurn::Player1;
    let player = PlayerType::Player1;

    let state_2 = fire(state.clone(), player, &Location { row: GRID_HEIGHT, col: 0 });
    assert!(state_2.is_err());
    assert!(state_2.err().unwrap().message().contains("Invalid fire coordinates"));

    let state_3 = fire(state, player, &Location { row: 0, col: GRID_WIDTH });
    assert!(state_3.is_err());
    assert!(state_3.err().unwrap().message().contains("Invalid fire coordinates"));
}

#[test]
fn cant_fire_in_same_location() {
    let mut state = GameState::new();
    state.result = GameResult::InProgress;
    state.turn = PlayerTurn::Player1;
    let player = PlayerType::Player1;
    let mut state_2 = fire(state, player, &Location { row: 0, col: 0 }).unwrap();
    // keep it the same player's turn
    state_2.turn = PlayerTurn::Player1;
    let state_3 = fire(state_2, player, &Location { row: 0, col: 0 });
    assert!(state_3.is_err());
    assert!(state_3.err().unwrap().message().contains("you have already fired there"));
}

#[test]
fn fire_and_miss() {
    let state = GameState::new();
    let mut state_2 = place(state, PlayerType::Player2, ShipType::Submarine, Location { row: 0, col: 0 }, Direction::Down).unwrap();
    state_2.result = GameResult::InProgress;
    state_2.turn = PlayerTurn::Player1;
    let player = PlayerType::Player1;
    let state_3 = fire(state_2, player, &Location { row: 0, col: 1 }).unwrap();
    let message = state_3.last_message().unwrap();
    assert!(message.contains(&String::from("and misses")));
    assert!(state_3.turn.eq(&PlayerTurn::Player2));
}

#[test]
fn fire_and_hit() {
    let state = GameState::new();
    let mut state_2 = place(state, PlayerType::Player2, ShipType::Submarine, Location { row: 0, col: 0 }, Direction::Down).unwrap();
    state_2.result = GameResult::InProgress;
    state_2.turn = PlayerTurn::Player1;
    let player = PlayerType::Player1;
    let state_3 = fire(state_2, player, &Location { row: 0, col: 0 }).unwrap();
    let message = state_3.last_message().unwrap();
    assert!(message.contains(&String::from("and hits")));
    assert!(state_3.turn.eq(&PlayerTurn::Player2));
}

#[test]
fn fire_and_sink() {
    let state = GameState::new();
    let mut state_2 = place(state, PlayerType::Player2, ShipType::Submarine, Location { row: 0, col: 0 }, Direction::Down).unwrap();
    state_2.result = GameResult::InProgress;
    state_2.turn = PlayerTurn::Player1;
    let player = PlayerType::Player1;
    let mut state_3 = fire(state_2, player, &Location { row: 0, col: 0 }).unwrap();
    state_3.turn = PlayerTurn::Player1;
    let state_4 = fire(state_3, player, &Location { row: 1, col: 0 }).unwrap();
    let message = state_4.last_message().unwrap();
    assert!(message.contains(&String::from("sunk")));
    assert!(state_4.turn.eq(&PlayerTurn::Player2));
}

#[test]
fn fire_and_win() {
    let state = GameState {
        p1_ships: vec![Ship {
            class: ShipType::Destroyer,
            locations: vec![Location { row: 0, col: 0 }, Location { row: 1, col: 0 }],
            hits: 0,
        }],
        p1_shots: Vec::new(),
        p2_ships: vec![Ship {
            class: ShipType::Destroyer,
            locations: vec![Location { row: 0, col: 0 }, Location { row: 1, col: 0 }],
            hits: 0,
        }],
        p2_shots: Vec::new(),
        result: GameResult::InProgress,
        turn: PlayerTurn::Player1,
        messages: vec![String::from("It's Player 1's turn.")],
    };
    let player = PlayerType::Player1;
    let mut state_2 = fire(state, player, &Location { row: 0, col: 0 }).unwrap();
    state_2.turn = PlayerTurn::Player1;
    let state_3 = fire(state_2, player, &Location { row: 1, col: 0 }).unwrap();
    assert!(state_3.result.eq(&GameResult::Player1Win));
    assert!(state_3.turn.eq(&PlayerTurn::Neither));
    let message = state_3.last_message().unwrap();
    assert!(message.contains(&String::from("Game over. Player 1 wins!")));
}

fn in_progress_with_p2_submarine() -> GameState {
    let state = GameState::new();
    let mut state_2 = place(state, PlayerType::Player2, ShipType::Submarine, Location { row: 0, col: 0 }, Direction::Down).unwrap();
    state_2.result = GameResult::InProgress;
    state_2.turn = PlayerTurn::Player1;
    state_2
}

#[test]
fn placed_submarine_covers_two_cells_downward() {
    let state = in_progress_with_p2_submarine();
    let sub = &state.ships(&PlayerType::Player2)[3];
    assert_eq!(sub.class, ShipType::Submarine);
    assert_eq!(sub.locations, vec![Location { row: 0, col: 0 }, Location { row: 1, col: 0 }]);
    assert!(ship_at(&state, &Location { row: 1, col: 0 }));
    assert!(!ship_at(&state, &Location { row: 2, col: 0 }));
}

#[test]
fn miss_records_shot_and_exact_message() {
    let state = in_progress_with_p2_submarine();
    let state_2 = fire(state, PlayerType::Player1, &Location { row: 0, col: 1 }).unwrap();
    let shots = state_2.shots(&PlayerType::Player1);
    assert_eq!(shots.len(), 1);
    assert!(!shots[0].hit);
    assert_eq!(shots[0].location, Location { row: 0, col: 1 });
    assert_eq!(state_2.last_message().unwrap(), "Player 1 fires at (1, 0) and misses!");
    assert_eq!(state_2.turn, PlayerTurn::Player2);
}

#[test]
fn hit_then_sink_counts_hits() {
    let state = in_progress_with_p2_submarine();
    let mut state_2 = fire(state, PlayerType::Player1, &Location { row: 0, col: 0 }).unwrap();
    assert_eq!(state_2.last_message().unwrap(), "Player 1 fires at (0, 0) and hits Player 2's ship!");
    assert!(state_2.shots(&PlayerType::Player1)[0].hit);
    state_2.turn = PlayerTurn::Player1;
    let state_3 = fire(state_2, PlayerType::Player1, &Location { row: 1, col: 0 }).unwrap();
    assert_eq!(state_3.last_message().unwrap(), "Player 1 sunk Player 2's Submarine!");
    assert_eq!(state_3.turn, PlayerTurn::Player2);
    assert_eq!(state_3.result, GameResult::InProgress);
    let sub = &state_3.ships(&PlayerType::Player2)[3];
    assert_eq!(sub.hits, 2);
    assert!(sub.sunk());
}

#[test]
fn no_shot_succeeds_after_win() {
    let state = GameState {
        p1_ships: vec![Ship { class: ShipType::Destroyer, locations: vec![Location { row: 5, col: 5 }, Location { row: 5, col: 6 }], hits: 0 }],
        p1_shots: Vec::new(),
        p2_ships: vec![Ship { class: ShipType::Submarine, locations: vec![Location { row: 0, col: 0 }, Location { row: 1, col: 0 }], hits: 1 }],
        p2_shots: Vec::new(),
        result: GameResult::InProgress,
        turn: PlayerTurn::Player1,
        messages: Vec::new(),
    };
    let state_2 = fire(state, PlayerType::Player1, &Location { row: 1, col: 0 }).unwrap();
    assert_eq!(state_2.result, GameResult::Player1Win);
    assert_eq!(state_2.turn, PlayerTurn::Neither);
    assert_eq!(state_2.messages.len(), 2);
    assert_eq!(state_2.messages[0], "Player 1 sunk Player 2's Submarine!");
    assert_eq!(state_2.messages[1], "Game over. Player 1 wins!");
    let again = fire(state_2.clone(), PlayerType::Player2, &Location { row: 5, col: 5 });
    assert_eq!(again.err(), Some(GameError::NotInProgress));
    let again = fire(state_2, PlayerType::Player1, &Location { row: 5, col: 5 });
    assert_eq!(again.err(), Some(GameError::NotInProgress));
}

#[test]
fn out_of_bounds_error_message() {
    let mut state = GameState::new();
    state.result = GameResult::InProgress;
    state.turn = PlayerTurn::Player2;
    let err = fire(state, PlayerType::Player2, &Location { row: 3, col: 12 }).err().unwrap();
    assert_eq!(err, GameError::OutOfBounds { location: Location { row: 3, col: 12 } });
    assert_eq!(err.message(), "Invalid fire coordinates (12, 3), must be between (0, 0) and (9, 9).");
}

#[test]
fn error_messages_name_their_values() {
    let e = GameError::NoRoom { class: ShipType::Carrier, location: Location { row: 7, col: 2 }, direction: Direction::Down };
    assert_eq!(e.message(), "Not enough room to place a Carrier at (2, 7) Down");
    let e = GameError::Overlap { location: Location { row: 0, col: 0 }, direction: Direction::Right };
    assert_eq!(e.message(), "Cannot place a ship at (0, 0) Right, as it would overlap another ship.");
    let e = GameError::NoShipsLeft { class: ShipType::Cruiser };
    assert_eq!(e.message(), "There are no ships of class Cruiser left to place");
    let e = GameError::NotFound { class: ShipType::Battleship, location: Location { row: 4, col: 1 } };
    assert_eq!(e.message(), "Could not find a Battleship at (1, 4)");
    let e = GameError::NotYourTurn { player: PlayerType::Player2 };
    assert_eq!(e.message(), "Player 2 cannot fire, it is not their turn.");
    let e = GameError::AlreadyFired { location: Location { row: 9, col: 9 } };
    assert_eq!(e.message(), "Cannot fire on (9, 9), you have already fired there!");
    assert_eq!(GameError::NotInSetup.message(), "Cannot place ships after the game has started.");
    assert_eq!(GameError::NotInProgress.message(), "Cannot fire when game is not in progress");
    assert_eq!(
        GameError::NotReady.message(),
        "Both players must place all their ships before the game can start."
    );
}

#[test]
fn expand_directions_and_edges() {
    let anchor = Location { row: 5, col: 5 };
    assert_eq!(
        expand(anchor, ShipType::Cruiser, Direction::Up).unwrap(),
        vec![Location { row: 3, col: 5 }, Location { row: 4, col: 5 }, Location { row: 5, col: 5 }]
    );
    assert_eq!(
        expand(anchor, ShipType::Cruiser, Direction::Down).unwrap(),
        vec![Location { row: 5, col: 5 }, Location { row: 6, col: 5 }, Location { row: 7, col: 5 }]
    );
    assert_eq!(
        expand(anchor, ShipType::Submarine, Direction::Left).unwrap(),
        vec![Location { row: 5, col: 4 }, Location { row: 5, col: 5 }]
    );
    assert_eq!(
        expand(anchor, ShipType::Submarine, Direction::Right).unwrap(),
        vec![Location { row: 5, col: 5 }, Location { row: 5, col: 6 }]
    );
    // the run may end on the last row or column, not beyond
    assert!(expand(Location { row: 5, col: 0 }, ShipType::Carrier, Direction::Down).is_ok());
    assert_eq!(
        expand(Location { row: 6, col: 0 }, ShipType::Carrier, Direction::Down).err(),
        Some(GameError::NoRoom { class: ShipType::Carrier, location: Location { row: 6, col: 0 }, direction: Direction::Down })
    );
    assert!(expand(Location { row: 0, col: 4 }, ShipType::Carrier, Direction::Left).is_ok());
    assert!(expand(Location { row: 0, col: 3 }, ShipType::Carrier, Direction::Left).is_err());
    assert!(expand(Location { row: 1, col: 0 }, ShipType::Destroyer, Direction::Up).is_ok());
    assert!(expand(Location { row: 0, col: 0 }, ShipType::Destroyer, Direction::Up).is_err());
    assert!(expand(Location { row: 0, col: 8 }, ShipType::Destroyer, Direction::Right).is_ok());
    assert!(expand(Location { row: 0, col: 9 }, ShipType::Destroyer, Direction::Right).is_err());
    assert!(expand(Location { row: 0, col: 10 }, ShipType::Destroyer, Direction::Down).is_err());
}

#[test]
fn overlap_is_checked_across_both_fleets() {
    let state = GameState::new();
    let state_2 = place(state, PlayerType::Player1, ShipType::Battleship, Location { row: 2, col: 2 }, Direction::Right).unwrap();
    let err = place(state_2, PlayerType::Player2, ShipType::Submarine, Location { row: 3, col: 3 }, Direction::Up).err();
    assert_eq!(err, Some(GameError::Overlap { location: Location { row: 3, col: 3 }, direction: Direction::Up }));
}

#[test]
fn remove_returns_ship_to_unplaced() {
    let state = GameState::new();
    let state_2 = place(state, PlayerType::Player1, ShipType::Destroyer, Location { row: 4, col: 4 }, Direction::Left).unwrap();
    assert_eq!(
        remove(&state_2, PlayerType::Player1, ShipType::Submarine, Location { row: 4, col: 4 }).err(),
        Some(GameError::NotFound { class: ShipType::Submarine, location: Location { row: 4, col: 4 } })
    );
    assert!(remove(&state_2, PlayerType::Player2, ShipType::Destroyer, Location { row: 4, col: 4 }).is_err());
    let state_3 = remove(&state_2, PlayerType::Player1, ShipType::Destroyer, Location { row: 4, col: 3 }).unwrap();
    assert!(state_3.ships(&PlayerType::Player1)[5].locations.is_empty());
    assert!(!ship_at(&state_3, &Location { row: 4, col: 4 }));
    assert!(ship_at(&state_2, &Location { row: 4, col: 4 }));
    let mut started = state_3.clone();
    started.result = GameResult::InProgress;
    assert_eq!(
        remove(&started, PlayerType::Player1, ShipType::Destroyer, Location { row: 4, col: 3 }).err(),
        Some(GameError::NotInSetup)
    );
}

#[test]
fn ready_and_start() {
    let mut state = GameState::new();
    assert!(!ready(&state, PlayerType::Player1));
    let fleet = [
        ShipType::Battleship,
        ShipType::Carrier,
        ShipType::Carrier,
        ShipType::Submarine,
        ShipType::Submarine,
        ShipType::Destroyer,
        ShipType::Destroyer,
    ];
    for (row, class) in fleet.iter().enumerate() {
        state = place(state, PlayerType::Player1, *class, Location { row: row as u32, col: 0 }, Direction::Right).unwrap();
    }
    assert!(ready(&state, PlayerType::Player1));
    assert!(!ready(&state, PlayerType::Player2));
    let not_yet = start(state.clone()).err();
    assert_eq!(not_yet, Some(GameError::NotReady));
    for (row, class) in fleet.iter().enumerate() {
        state = place(state, PlayerType::Player2, *class, Location { row: row as u32, col: 5 }, Direction::Right).unwrap();
    }
    assert!(ready(&state, PlayerType::Player2));
    let started = start(state).unwrap();
    assert_eq!(started.result, GameResult::InProgress);
    assert_eq!(started.turn, PlayerTurn::Player1);
    assert!(!ready(&started, PlayerType::Player1));
    assert_eq!(start(started).err(), Some(GameError::NotInSetup));
}

#[test]
fn new_game_layout() {
    let state = GameState::new();
    assert_eq!(state.result, GameResult::InSetup);
    assert_eq!(state.turn, PlayerTurn::Either);
    assert_eq!(state.ships(&PlayerType::Player1).len(), 7);
    assert_eq!(state.ships(&PlayerType::Player2)[0].class, ShipType::Battleship);
    assert!(state.shots(&PlayerType::Player2).is_empty());
    assert_eq!(state.last_message().unwrap(), "Players, please place your ships to begin the game!");
    assert_eq!(GameResult::player_win(&PlayerType::Player2), GameResult::Player2Win);
}
