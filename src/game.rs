//! The game state and its transitions: placing and removing ships during
//! setup, starting the game, and firing shots until one fleet is sunk.
use vstd::prelude::*;
use crate::location::{Location, location_display};
use crate::player::{PlayerType, PlayerTurn, other_player, turn_of, player_name};
use crate::ship::{Ship, ShipType, ShipView, class_size, class_name, copy_vec, ship_views};
pub use crate::shot::Shot;
use crate::proofs::{
    lemma_fire_keeps_consistent, lemma_place_keeps_consistent, lemma_remove_keeps_consistent,
};

verus! {

pub const GRID_WIDTH: u32 = 10;
pub const GRID_HEIGHT: u32 = 10;

/// The phase of the game, or who won it.
#[derive(Clone, Copy, Debug, PartialEq, Eq, Structural)]
pub enum GameResult {
    InSetup,
    InProgress,
    Player1Win,
    Player2Win,
}

pub open spec fn win_of(p: PlayerType) -> GameResult {
    match p {
        PlayerType::Player1 => GameResult::Player1Win,
        PlayerType::Player2 => GameResult::Player2Win,
    }
}

impl GameResult {
    /// The result in which `player` has won.
    pub fn player_win(player: &PlayerType) -> (r: GameResult)
        ensures
            r == win_of(*player),
    {
        match player {
            PlayerType::Player1 => GameResult::Player1Win,
            PlayerType::Player2 => GameResult::Player2Win,
        }
    }
}

/// The way a ship extends from the cell it is anchored at.
#[derive(Clone, Copy, Debug, PartialEq, Eq, Structural)]
pub enum Direction {
    Up,
    Down,
    Left,
    Right,
}

pub open spec fn direction_name(d: Direction) -> Seq<char> {
    match d {
        Direction::Up => "Up"@,
        Direction::Down => "Down"@,
        Direction::Left => "Left"@,
        Direction::Right => "Right"@,
    }
}

impl Direction {
    pub fn name(&self) -> (r: String)
        ensures
            r@ == direction_name(*self),
    {
        match self {
            Direction::Up => String::from_str("Up"),
            Direction::Down => String::from_str("Down"),
            Direction::Left => String::from_str("Left"),
            Direction::Right => String::from_str("Right"),
        }
    }
}

/// Why a transition was refused.
#[derive(Clone, Copy, Debug, PartialEq, Eq, Structural)]
pub enum GameError {
    NotInSetup,
    NoRoom { class: ShipType, location: Location, direction: Direction },
    Overlap { location: Location, direction: Direction },
    NoShipsLeft { class: ShipType },
    NotFound { class: ShipType, location: Location },
    NotReady,
    NotInProgress,
    NotYourTurn { player: PlayerType },
    OutOfBounds { location: Location },
    AlreadyFired { location: Location },
}

pub open spec fn error_message(e: GameError) -> Seq<char> {
    match e {
        GameError::NotInSetup => "Cannot place ships after the game has started."@,
        GameError::NoRoom { class, location, direction } => "Not enough room to place a "@
            + class_name(class) + " at "@ + location_display(location) + " "@ + direction_name(
            direction,
        ),
        GameError::Overlap { location, direction } => "Cannot place a ship at "@
            + location_display(location) + " "@ + direction_name(direction)
            + ", as it would overlap another ship."@,
        GameError::NoShipsLeft { class } => "There are no ships of class "@ + class_name(class)
            + " left to place"@,
        GameError::NotFound { class, location } => "Could not find a "@ + class_name(class)
            + " at "@ + location_display(location),
        GameError::NotReady => "Both players must place all their ships before the game can start."@,
        GameError::NotInProgress => "Cannot fire when game is not in progress"@,
        GameError::NotYourTurn { player } => player_name(player)
            + " cannot fire, it is not their turn."@,
        GameError::OutOfBounds { location } => "Invalid fire coordinates "@ + location_display(
            location,
        ) + ", must be between "@ + location_display(Location { row: 0, col: 0 }) + " and "@
            + location_display(Location { row: (GRID_HEIGHT - 1) as u32, col: (GRID_WIDTH - 1) as u32 })
            + "."@,
        GameError::AlreadyFired { location } => "Cannot fire on "@ + location_display(location)
            + ", you have already fired there!"@,
    }
}

impl GameError {
    /// The human-readable text of the error.
    pub fn message(&self) -> (r: String)
        ensures
            r@ == error_message(*self),
    {
        match self {
            GameError::NotInSetup => String::from_str("Cannot place ships after the game has started."),
            GameError::NoRoom { class, location, direction } => {
                let mut s = String::from_str("Not enough room to place a ");
                s.append(class.to_string().as_str());
                s.append(" at ");
                s.append(location.display().as_str());
                s.append(" ");
                s.append(direction.name().as_str());
                s
            },
            GameError::Overlap { location, direction } => {
                let mut s = String::from_str("Cannot place a ship at ");
                s.append(location.display().as_str());
                s.append(" ");
                s.append(direction.name().as_str());
                s.append(", as it would overlap another ship.");
                s
            },
            GameError::NoShipsLeft { class } => {
                let mut s = String::from_str("There are no ships of class ");
                s.append(class.to_string().as_str());
                s.append(" left to place");
                s
            },
            GameError::NotFound { class, location } => {
                let mut s = String::from_str("Could not find a ");
                s.append(class.to_string().as_str());
                s.append(" at ");
                s.append(location.display().as_str());
                s
            },
            GameError::NotReady => String::from_str(
                "Both players must place all their ships before the game can start.",
            ),
            GameError::NotInProgress => String::from_str("Cannot fire when game is not in progress"),
            GameError::NotYourTurn { player } => {
                let mut s = player.name();
                s.append(" cannot fire, it is not their turn.");
                s
            },
            GameError::OutOfBounds { location } => {
                let mut s = String::from_str("Invalid fire coordinates ");
                s.append(location.display().as_str());
                s.append(", must be between ");
                s.append(Location { row: 0, col: 0 }.display().as_str());
                s.append(" and ");
                s.append(Location { row: GRID_HEIGHT - 1, col: GRID_WIDTH - 1 }.display().as_str());
                s.append(".");
                s
            },
            GameError::AlreadyFired { location } => {
                let mut s = String::from_str("Cannot fire on ");
                s.append(location.display().as_str());
                s.append(", you have already fired there!");
                s
            },
        }
    }
}

/// The whole game: both fleets, both shot histories, the phase, whose turn
/// it is, and the message log (most recent last).
pub struct GameState {
    pub p1_ships: Vec<Ship>,
    pub p1_shots: Vec<Shot>,
    pub p2_ships: Vec<Ship>,
    pub p2_shots: Vec<Shot>,
    pub result: GameResult,
    pub turn: PlayerTurn,
    pub messages: Vec<String>,
}

/// The mathematical value of a game.
pub struct GameView {
    pub p1_ships: Seq<ShipView>,
    pub p1_shots: Seq<Shot>,
    pub p2_ships: Seq<ShipView>,
    pub p2_shots: Seq<Shot>,
    pub result: GameResult,
    pub turn: PlayerTurn,
    pub messages: Seq<Seq<char>>,
}

pub open spec fn texts(v: Seq<String>) -> Seq<Seq<char>> {
    v.map_values(|s: String| s@)
}

impl View for GameState {
    type V = GameView;

    open spec fn view(&self) -> GameView {
        GameView {
            p1_ships: ship_views(self.p1_ships@),
            p1_shots: self.p1_shots@,
            p2_ships: ship_views(self.p2_ships@),
            p2_shots: self.p2_shots@,
            result: self.result,
            turn: self.turn,
            messages: texts(self.messages@),
        }
    }
}

pub open spec fn result_view(r: Result<GameState, GameError>) -> Result<GameView, GameError> {
    match r {
        Ok(g) => Ok(g@),
        Err(e) => Err(e),
    }
}

pub open spec fn in_grid(l: Location) -> bool {
    l.row < GRID_HEIGHT && l.col < GRID_WIDTH
}

/// The first index of `f` whose ship satisfies `pred`.
pub open spec fn is_first(f: Seq<ShipView>, pred: spec_fn(ShipView) -> bool, i: int) -> bool {
    &&& 0 <= i < f.len()
    &&& pred(f[i])
    &&& forall|j: int| 0 <= j < i ==> !pred(#[trigger] f[j])
}

pub open spec fn first_index(f: Seq<ShipView>, pred: spec_fn(ShipView) -> bool) -> Option<int> {
    if exists|i: int| is_first(f, pred, i) {
        Some(choose|i: int| is_first(f, pred, i))
    } else {
        None
    }
}

pub proof fn lemma_first_index(f: Seq<ShipView>, pred: spec_fn(ShipView) -> bool, i: int)
    requires
        is_first(f, pred, i),
    ensures
        first_index(f, pred) == Some(i),
{
    let j = choose|j: int| is_first(f, pred, j);
    assert(is_first(f, pred, j));
    if j < i {
        assert(!pred(f[j]));
    } else if i < j {
        assert(!pred(f[i]));
    }
}

pub proof fn lemma_first_index_none(f: Seq<ShipView>, pred: spec_fn(ShipView) -> bool)
    requires
        forall|j: int| 0 <= j < f.len() ==> !pred(#[trigger] f[j]),
    ensures
        first_index(f, pred) is None,
{
}

pub open spec fn unplaced_of(c: ShipType) -> spec_fn(ShipView) -> bool {
    |s: ShipView| s.class == c && s.locations.len() == 0
}

pub open spec fn placed_at(c: ShipType, l: Location) -> spec_fn(ShipView) -> bool {
    |s: ShipView| s.class == c && s.locations.contains(l)
}

pub open spec fn covering(l: Location) -> spec_fn(ShipView) -> bool {
    |s: ShipView| s.locations.contains(l)
}

/// Some ship of the fleet covers `l`.
pub open spec fn covers(f: Seq<ShipView>, l: Location) -> bool {
    exists|i: int| 0 <= i < f.len() && (#[trigger] f[i]).locations.contains(l)
}

pub open spec fn shot_at(shots: Seq<Shot>, l: Location) -> bool {
    exists|i: int| 0 <= i < shots.len() && (#[trigger] shots[i]).location == l
}

pub open spec fn all_sunk(f: Seq<ShipView>) -> bool {
    forall|i: int| 0 <= i < f.len() ==> (#[trigger] f[i]).sunk()
}

/// Whether `n` cells from `l` in direction `d` stay on the grid. Up and Left
/// end at the anchor; Down and Right start at it.
pub open spec fn fits(l: Location, n: nat, d: Direction) -> bool {
    match d {
        Direction::Up => l.row < GRID_HEIGHT && l.col < GRID_WIDTH && l.row + 1 >= n,
        Direction::Down => l.row + n <= GRID_HEIGHT && l.col < GRID_WIDTH,
        Direction::Left => l.row < GRID_HEIGHT && l.col < GRID_WIDTH && l.col + 1 >= n,
        Direction::Right => l.row < GRID_HEIGHT && l.col + n <= GRID_WIDTH,
    }
}

/// The `n` cells of the run, in increasing row or column order.
pub open spec fn run_cells(l: Location, n: nat, d: Direction) -> Seq<Location> {
    Seq::new(
        n,
        |i: int|
            match d {
                Direction::Up => Location { row: (l.row + 1 - n + i) as u32, col: l.col },
                Direction::Down => Location { row: (l.row + i) as u32, col: l.col },
                Direction::Left => Location { row: l.row, col: (l.col + 1 - n + i) as u32 },
                Direction::Right => Location { row: l.row, col: (l.col + i) as u32 },
            },
    )
}

/// The cells a ship of class `c` anchored at `l` in direction `d` covers, if
/// they fit on the grid.
pub open spec fn expansion(l: Location, c: ShipType, d: Direction) -> Option<Seq<Location>> {
    if fits(l, class_size(c), d) {
        Some(run_cells(l, class_size(c), d))
    } else {
        None
    }
}

pub open spec fn ready_spec(g: GameView, p: PlayerType) -> bool {
    &&& g.result == GameResult::InSetup
    &&& forall|i: int| 0 <= i < g.fleet(p).len() ==> (#[trigger] g.fleet(p)[i]).locations.len() > 0
}

/// How many of the cells `locs` the shots have struck.
pub open spec fn cells_shot(locs: Seq<Location>, shots: Seq<Shot>) -> nat
    decreases locs.len(),
{
    if locs.len() == 0 {
        0
    } else {
        cells_shot(locs.drop_last(), shots) + if shot_at(shots, locs.last()) {
            1nat
        } else {
            0nat
        }
    }
}

/// Every ship of the fleet is well formed and on the grid, no two ships
/// share a cell, and each ship's hit count is the number of its cells that
/// the opponent's shots have struck.
pub open spec fn fleet_consistent(f: Seq<ShipView>, opposing_shots: Seq<Shot>) -> bool {
    &&& forall|i: int| 0 <= i < f.len() ==> (#[trigger] f[i]).wf()
    &&& forall|i: int, k: int|
        0 <= i < f.len() && 0 <= k < f[i].locations.len() ==> in_grid(
            #[trigger] f[i].locations[k],
        )
    &&& forall|i: int|
        0 <= i < f.len() ==> (#[trigger] f[i]).hits == cells_shot(f[i].locations, opposing_shots)
    &&& forall|i: int, j: int, l: Location|
        #![trigger f[i].locations.contains(l), f[j].locations.contains(l)]
        0 <= i < f.len() && 0 <= j < f.len() && i != j && f[i].locations.contains(l)
            ==> !f[j].locations.contains(l)
}

/// No cell is covered both by a ship of `f` and by a ship of `h`.
pub open spec fn fleets_apart(f: Seq<ShipView>, h: Seq<ShipView>) -> bool {
    forall|i: int, j: int, l: Location|
        #![trigger f[i].locations.contains(l), h[j].locations.contains(l)]
        0 <= i < f.len() && 0 <= j < h.len() && f[i].locations.contains(l)
            ==> !h[j].locations.contains(l)
}

impl GameView {
    /// The invariant of every game that the transitions reach from a new one:
    /// both fleets are consistent, no cell is covered by ships of both
    /// players, and no shot is on record during setup.
    pub open spec fn consistent(self) -> bool {
        &&& fleet_consistent(self.p1_ships, self.p2_shots)
        &&& fleet_consistent(self.p2_ships, self.p1_shots)
        &&& fleets_apart(self.p1_ships, self.p2_ships)
        &&& self.result == GameResult::InSetup ==> self.p1_shots.len() == 0 && self.p2_shots.len()
            == 0
    }

    pub open spec fn fleet(self, p: PlayerType) -> Seq<ShipView> {
        match p {
            PlayerType::Player1 => self.p1_ships,
            PlayerType::Player2 => self.p2_ships,
        }
    }

    pub open spec fn shots(self, p: PlayerType) -> Seq<Shot> {
        match p {
            PlayerType::Player1 => self.p1_shots,
            PlayerType::Player2 => self.p2_shots,
        }
    }

    pub open spec fn with_fleet(self, p: PlayerType, f: Seq<ShipView>) -> GameView {
        match p {
            PlayerType::Player1 => GameView { p1_ships: f, ..self },
            PlayerType::Player2 => GameView { p2_ships: f, ..self },
        }
    }

    pub open spec fn with_shots(self, p: PlayerType, s: Seq<Shot>) -> GameView {
        match p {
            PlayerType::Player1 => GameView { p1_shots: s, ..self },
            PlayerType::Player2 => GameView { p2_shots: s, ..self },
        }
    }

    /// A ship of either fleet covers `l`.
    pub open spec fn occupied(self, l: Location) -> bool {
        covers(self.p1_ships, l) || covers(self.p2_ships, l)
    }
}

/// What placing a ship does to a game.
pub open spec fn place_spec(
    g: GameView,
    p: PlayerType,
    c: ShipType,
    l: Location,
    d: Direction,
) -> Result<GameView, GameError> {
    if g.result != GameResult::InSetup {
        Err(GameError::NotInSetup)
    } else {
        match expansion(l, c, d) {
            None => Err(GameError::NoRoom { class: c, location: l, direction: d }),
            Some(cells) => if exists|k: int| 0 <= k < cells.len() && g.occupied(#[trigger] cells[k]) {
                Err(GameError::Overlap { location: l, direction: d })
            } else {
                match first_index(g.fleet(p), unplaced_of(c)) {
                    None => Err(GameError::NoShipsLeft { class: c }),
                    Some(i) => Ok(
                        g.with_fleet(
                            p,
                            g.fleet(p).update(
                                i,
                                ShipView { class: c, locations: cells, hits: g.fleet(p)[i].hits },
                            ),
                        ),
                    ),
                }
            },
        }
    }
}

/// Computes the cells a ship of `class` anchored at `location` covers when it
/// extends in `direction`.
pub fn expand(location: Location, class: ShipType, direction: Direction) -> (r: Result<
    Vec<Location>,
    GameError,
>)
    ensures
        match r {
            Ok(v) => expansion(location, class, direction) == Some(v@),
            Err(e) => expansion(location, class, direction) is None && e == (GameError::NoRoom {
                class,
                location,
                direction,
            }),
        },
{
    let size = class.size();
    let room = match direction {
        Direction::Up => location.row < GRID_HEIGHT && location.col < GRID_WIDTH && location.row
            + 1 >= size,
        Direction::Down => location.row <= GRID_HEIGHT - size && location.col < GRID_WIDTH,
        Direction::Left => location.row < GRID_HEIGHT && location.col < GRID_WIDTH && location.col
            + 1 >= size,
        Direction::Right => location.row < GRID_HEIGHT && location.col <= GRID_WIDTH - size,
    };
    if !room {
        return Err(GameError::NoRoom { class, location, direction });
    }
    let ghost cells = run_cells(location, size as nat, direction);
    let mut v: Vec<Location> = Vec::new();
    let mut i: u32 = 0;
    while i < size
        invariant
            fits(location, size as nat, direction),
            size == class_size(class),
            cells == run_cells(location, size as nat, direction),
            i <= size,
            v@ == cells.subrange(0, i as int),
        decreases size - i,
    {
        let cell = match direction {
            Direction::Up => Location { row: location.row + 1 - size + i, col: location.col },
            Direction::Down => Location { row: location.row + i, col: location.col },
            Direction::Left => Location { row: location.row, col: location.col + 1 - size + i },
            Direction::Right => Location { row: location.row, col: location.col + i },
        };
        v.push(cell);
        i += 1;
        assert(v@ == cells.subrange(0, i as int));
    }
    assert(cells.subrange(0, size as int) == cells);
    Ok(v)
}

fn contains_location(v: &Vec<Location>, l: &Location) -> (r: bool)
    ensures
        r == v@.contains(*l),
{
    let mut i: usize = 0;
    while i < v.len()
        invariant
            i <= v.len(),
            forall|j: int| 0 <= j < i ==> v@[j] != *l,
        decreases v.len() - i,
    {
        if v[i] == *l {
            return true;
        }
        i += 1;
    }
    false
}

fn fleet_covers(fleet: &Vec<Ship>, l: &Location) -> (r: bool)
    ensures
        r == covers(ship_views(fleet@), *l),
{
    let ghost f = ship_views(fleet@);
    let mut i: usize = 0;
    while i < fleet.len()
        invariant
            i <= fleet.len(),
            f == ship_views(fleet@),
            forall|j: int| 0 <= j < i ==> !(#[trigger] f[j]).locations.contains(*l),
        decreases fleet.len() - i,
    {
        if contains_location(&fleet[i].locations, l) {
            assert(f[i as int].locations.contains(*l));
            return true;
        }
        i += 1;
    }
    false
}

/// Whether a ship of either player covers `location`.
pub fn ship_at(game: &GameState, location: &Location) -> (r: bool)
    ensures
        r == game@.occupied(*location),
{
    fleet_covers(&game.p1_ships, location) || fleet_covers(&game.p2_ships, location)
}

fn place_in_fleet(fleet: &mut Vec<Ship>, class: ShipType, cells: Vec<Location>) -> (placed: bool)
    ensures
        match first_index(ship_views(old(fleet)@), unplaced_of(class)) {
            Some(i) => placed && ship_views(final(fleet)@) == ship_views(old(fleet)@).update(
                i,
                ShipView { class, locations: cells@, hits: ship_views(old(fleet)@)[i].hits },
            ),
            None => !placed && final(fleet)@ == old(fleet)@,
        },
{
    let ghost f = ship_views(fleet@);
    let mut i: usize = 0;
    while i < fleet.len()
        invariant
            i <= fleet.len(),
            fleet@ == old(fleet)@,
            f == ship_views(fleet@),
            forall|j: int| 0 <= j < i ==> !unplaced_of(class)(#[trigger] f[j]),
        decreases fleet.len() - i,
    {
        if fleet[i].class == class && fleet[i].locations.len() == 0 {
            proof {
                lemma_first_index(f, unplaced_of(class), i as int);
            }
            fleet[i].locations = cells;
            assert(ship_views(fleet@) =~= f.update(
                i as int,
                ShipView { class, locations: cells@, hits: f[i as int].hits },
            ));
            return true;
        }
        i += 1;
    }
    proof {
        lemma_first_index_none(f, unplaced_of(class));
    }
    false
}

/// Places the first unplaced ship of `class` in `player`'s fleet on the cells
/// that `expand` gives, if the game is in setup and no ship of either player
/// covers any of them.
pub fn place(
    game_state: GameState,
    player: PlayerType,
    class: ShipType,
    location: Location,
    direction: Direction,
) -> (r: Result<GameState, GameError>)
    ensures
        result_view(r) == place_spec(game_state@, player, class, location, direction),
        r is Ok && game_state@.consistent() ==> r->Ok_0@.consistent(),
{
    if game_state.result != GameResult::InSetup {
        return Err(GameError::NotInSetup);
    }
    let cells = match expand(location, class, direction) {
        Ok(v) => v,
        Err(e) => {
            return Err(e);
        },
    };
    let mut k: usize = 0;
    while k < cells.len()
        invariant
            k <= cells.len(),
            game_state.result == GameResult::InSetup,
            expansion(location, class, direction) == Some(cells@),
            forall|j: int| 0 <= j < k ==> !game_state@.occupied(#[trigger] cells@[j]),
        decreases cells.len() - k,
    {
        if ship_at(&game_state, &cells[k]) {
            assert(game_state@.occupied(cells@[k as int]));
            return Err(GameError::Overlap { location, direction });
        }
        k += 1;
    }
    let ghost g = game_state@;
    let mut game = game_state;
    let placed = match player {
        PlayerType::Player1 => place_in_fleet(&mut game.p1_ships, class, cells),
        PlayerType::Player2 => place_in_fleet(&mut game.p2_ships, class, cells),
    };
    if placed {
        assert(game@ =~= place_spec(g, player, class, location, direction)->Ok_0);
        proof {
            if g.consistent() {
                lemma_place_keeps_consistent(g, player, class, location, direction);
            }
        }
        Ok(game)
    } else {
        Err(GameError::NoShipsLeft { class })
    }
}

/// What removing a ship does to a game.
pub open spec fn remove_spec(g: GameView, p: PlayerType, c: ShipType, l: Location) -> Result<
    GameView,
    GameError,
> {
    if g.result != GameResult::InSetup {
        Err(GameError::NotInSetup)
    } else {
        match first_index(g.fleet(p), placed_at(c, l)) {
            None => Err(GameError::NotFound { class: c, location: l }),
            Some(i) => Ok(
                g.with_fleet(
                    p,
                    g.fleet(p).update(
                        i,
                        ShipView { class: c, locations: Seq::empty(), hits: g.fleet(p)[i].hits },
                    ),
                ),
            ),
        }
    }
}

/// What starting the game does: the first player fires first.
pub open spec fn start_spec(g: GameView) -> Result<GameView, GameError> {
    if g.result != GameResult::InSetup {
        Err(GameError::NotInSetup)
    } else if !(ready_spec(g, PlayerType::Player1) && ready_spec(g, PlayerType::Player2)) {
        Err(GameError::NotReady)
    } else {
        Ok(GameView { result: GameResult::InProgress, turn: PlayerTurn::Player1, ..g })
    }
}

pub open spec fn sunk_text(p: PlayerType, c: ShipType) -> Seq<char> {
    player_name(p) + " sunk "@ + player_name(other_player(p)) + "'s "@ + class_name(c) + "!"@
}

pub open spec fn hit_text(p: PlayerType, l: Location) -> Seq<char> {
    player_name(p) + " fires at "@ + location_display(l) + " and hits "@ + player_name(
        other_player(p),
    ) + "'s ship!"@
}

pub open spec fn miss_text(p: PlayerType, l: Location) -> Seq<char> {
    player_name(p) + " fires at "@ + location_display(l) + " and misses!"@
}

pub open spec fn win_text(p: PlayerType) -> Seq<char> {
    "Game over. "@ + player_name(p) + " wins!"@
}

/// No ship of the fleet has more hits than its class has cells.
pub open spec fn hits_bounded(f: Seq<ShipView>) -> bool {
    forall|i: int| 0 <= i < f.len() ==> (#[trigger] f[i]).hits <= class_size(f[i].class)
}

/// The fleet after a shot at `l`: the first ship covering `l` takes a hit.
pub open spec fn struck(f: Seq<ShipView>, l: Location) -> Seq<ShipView> {
    match first_index(f, covering(l)) {
        Some(i) => f.update(
            i,
            ShipView { class: f[i].class, locations: f[i].locations, hits: (f[i].hits + 1) as u32 },
        ),
        None => f,
    }
}

/// The message that a shot at `l` by `p` logs.
pub open spec fn shot_message(g: GameView, p: PlayerType, l: Location) -> Seq<char> {
    let f = g.fleet(other_player(p));
    match first_index(f, covering(l)) {
        Some(i) => if f[i].hits + 1 == class_size(f[i].class) {
            sunk_text(p, f[i].class)
        } else {
            hit_text(p, l)
        },
        None => miss_text(p, l),
    }
}

/// The game after `p` fires a permitted shot at `l`.
pub open spec fn after_shot(g: GameView, p: PlayerType, l: Location) -> GameView {
    let q = other_player(p);
    let f2 = struck(g.fleet(q), l);
    let hit = first_index(g.fleet(q), covering(l)) is Some;
    let g1 = g.with_fleet(q, f2).with_shots(p, g.shots(p).push(Shot { location: l, hit }));
    let msgs = g.messages.push(shot_message(g, p, l));
    if all_sunk(f2) {
        GameView {
            result: win_of(p),
            turn: PlayerTurn::Neither,
            messages: msgs.push(win_text(p)),
            ..g1
        }
    } else {
        GameView { turn: turn_of(q), messages: msgs, ..g1 }
    }
}

/// What firing a shot does to a game; the checks apply in this order.
pub open spec fn fire_spec(g: GameView, p: PlayerType, l: Location) -> Result<GameView, GameError> {
    if g.result != GameResult::InProgress {
        Err(GameError::NotInProgress)
    } else if g.turn != turn_of(p) {
        Err(GameError::NotYourTurn { player: p })
    } else if !in_grid(l) {
        Err(GameError::OutOfBounds { location: l })
    } else if shot_at(g.shots(p), l) {
        Err(GameError::AlreadyFired { location: l })
    } else {
        Ok(after_shot(g, p, l))
    }
}

pub open spec fn unplaced(c: ShipType) -> ShipView {
    ShipView { class: c, locations: Seq::empty(), hits: 0 }
}

/// The fleet each player starts with.
pub open spec fn standard_fleet() -> Seq<ShipView> {
    seq![
        unplaced(ShipType::Battleship),
        unplaced(ShipType::Carrier),
        unplaced(ShipType::Carrier),
        unplaced(ShipType::Submarine),
        unplaced(ShipType::Submarine),
        unplaced(ShipType::Destroyer),
        unplaced(ShipType::Destroyer),
    ]
}

pub open spec fn welcome_text() -> Seq<char> {
    "Players, please place your ships to begin the game!"@
}

fn new_fleet() -> (r: Vec<Ship>)
    ensures
        ship_views(r@) == standard_fleet(),
{
    let mut v: Vec<Ship> = Vec::new();
    v.push(Ship::battleship());
    v.push(Ship::carrier());
    v.push(Ship::carrier());
    v.push(Ship::submarine());
    v.push(Ship::submarine());
    v.push(Ship::destroyer());
    v.push(Ship::destroyer());
    assert(ship_views(v@) =~= standard_fleet());
    v
}

fn copy_fleet(v: &Vec<Ship>) -> (r: Vec<Ship>)
    ensures
        ship_views(r@) == ship_views(v@),
{
    let mut r: Vec<Ship> = Vec::new();
    let mut i: usize = 0;
    while i < v.len()
        invariant
            i <= v.len(),
            ship_views(r@) == ship_views(v@).subrange(0, i as int),
        decreases v.len() - i,
    {
        let ghost before = r@;
        r.push(v[i].clone());
        assert(ship_views(r@) =~= ship_views(before).push(v@[i as int]@));
        assert(ship_views(r@) =~= ship_views(v@).subrange(0, i + 1));
        i += 1;
    }
    assert(ship_views(v@).subrange(0, v.len() as int) =~= ship_views(v@));
    r
}

fn copy_texts(v: &Vec<String>) -> (r: Vec<String>)
    ensures
        texts(r@) == texts(v@),
{
    let mut r: Vec<String> = Vec::new();
    let mut i: usize = 0;
    while i < v.len()
        invariant
            i <= v.len(),
            texts(r@) == texts(v@).subrange(0, i as int),
        decreases v.len() - i,
    {
        let ghost before = r@;
        r.push(v[i].clone());
        assert(texts(r@) =~= texts(before).push(v@[i as int]@));
        assert(texts(r@) =~= texts(v@).subrange(0, i + 1));
        i += 1;
    }
    assert(texts(v@).subrange(0, v.len() as int) =~= texts(v@));
    r
}

impl Clone for GameState {
    fn clone(&self) -> (r: GameState)
        ensures
            r@ == self@,
    {
        GameState {
            p1_ships: copy_fleet(&self.p1_ships),
            p1_shots: copy_vec(&self.p1_shots),
            p2_ships: copy_fleet(&self.p2_ships),
            p2_shots: copy_vec(&self.p2_shots),
            result: self.result,
            turn: self.turn,
            messages: copy_texts(&self.messages),
        }
    }
}

impl GameState {
    /// A game in setup: two standard fleets, no shots, and a welcome message.
    pub fn new() -> (r: GameState)
        ensures
            r@ == (GameView {
                p1_ships: standard_fleet(),
                p1_shots: Seq::empty(),
                p2_ships: standard_fleet(),
                p2_shots: Seq::empty(),
                result: GameResult::InSetup,
                turn: PlayerTurn::Either,
                messages: seq![welcome_text()],
            }),
            r@.consistent(),
    {
        let mut messages: Vec<String> = Vec::new();
        messages.push(String::from_str("Players, please place your ships to begin the game!"));
        let r = GameState {
            p1_ships: new_fleet(),
            p1_shots: Vec::new(),
            p2_ships: new_fleet(),
            p2_shots: Vec::new(),
            result: GameResult::InSetup,
            turn: PlayerTurn::Either,
            messages,
        };
        assert(texts(r.messages@) =~= seq![welcome_text()]);
        r
    }

    /// The shots `player` has fired, oldest first.
    pub fn shots(&self, player: &PlayerType) -> (r: &Vec<Shot>)
        ensures
            r@ == self@.shots(*player),
    {
        match player {
            PlayerType::Player1 => &self.p1_shots,
            PlayerType::Player2 => &self.p2_shots,
        }
    }

    pub fn shots_mut(&mut self, player: &PlayerType) -> (r: &mut Vec<Shot>)
        ensures
            match *player {
                PlayerType::Player1 => *r == old(self).p1_shots && *final(self) == (GameState {
                    p1_shots: *final(r),
                    ..*old(self)
                }),
                PlayerType::Player2 => *r == old(self).p2_shots && *final(self) == (GameState {
                    p2_shots: *final(r),
                    ..*old(self)
                }),
            },
    {
        match player {
            PlayerType::Player1 => &mut self.p1_shots,
            PlayerType::Player2 => &mut self.p2_shots,
        }
    }

    /// The fleet of `player`.
    pub fn ships(&self, player: &PlayerType) -> (r: &Vec<Ship>)
        ensures
            ship_views(r@) == self@.fleet(*player),
    {
        match player {
            PlayerType::Player1 => &self.p1_ships,
            PlayerType::Player2 => &self.p2_ships,
        }
    }

    pub fn ships_mut(&mut self, player: &PlayerType) -> (r: &mut Vec<Ship>)
        ensures
            match *player {
                PlayerType::Player1 => *r == old(self).p1_ships && *final(self) == (GameState {
                    p1_ships: *final(r),
                    ..*old(self)
                }),
                PlayerType::Player2 => *r == old(self).p2_ships && *final(self) == (GameState {
                    p2_ships: *final(r),
                    ..*old(self)
                }),
            },
    {
        match player {
            PlayerType::Player1 => &mut self.p1_ships,
            PlayerType::Player2 => &mut self.p2_ships,
        }
    }

    /// The most recent message, if any.
    pub fn last_message(&self) -> (r: Option<&String>)
        ensures
            match r {
                Some(m) => self.messages@.len() > 0 && m@ == self@.messages.last(),
                None => self.messages@.len() == 0,
            },
    {
        let n = self.messages.len();
        if n == 0 {
            None
        } else {
            Some(&self.messages[n - 1])
        }
    }
}

fn fleet_placed(fleet: &Vec<Ship>) -> (r: bool)
    ensures
        r == forall|i: int|
            0 <= i < fleet@.len() ==> (#[trigger] ship_views(fleet@)[i]).locations.len() > 0,
{
    let ghost f = ship_views(fleet@);
    let mut i: usize = 0;
    while i < fleet.len()
        invariant
            i <= fleet.len(),
            f == ship_views(fleet@),
            forall|j: int| 0 <= j < i ==> (#[trigger] f[j]).locations.len() > 0,
        decreases fleet.len() - i,
    {
        if fleet[i].locations.len() == 0 {
            assert(f[i as int].locations.len() == 0);
            return false;
        }
        i += 1;
    }
    true
}

/// Whether the game is in setup and `player` has placed every ship.
pub fn ready(game: &GameState, player: PlayerType) -> (r: bool)
    ensures
        r == ready_spec(game@, player),
{
    if game.result != GameResult::InSetup {
        return false;
    }
    fleet_placed(game.ships(&player))
}

/// Ends setup once both players have placed every ship; the first player
/// fires first.
pub fn start(game_state: GameState) -> (r: Result<GameState, GameError>)
    ensures
        result_view(r) == start_spec(game_state@),
        r is Ok && game_state@.consistent() ==> r->Ok_0@.consistent(),
{
    if game_state.result != GameResult::InSetup {
        return Err(GameError::NotInSetup);
    }
    if !(ready(&game_state, PlayerType::Player1) && ready(&game_state, PlayerType::Player2)) {
        return Err(GameError::NotReady);
    }
    let mut game = game_state;
    game.result = GameResult::InProgress;
    game.turn = PlayerTurn::Player1;
    Ok(game)
}

fn clear_from_fleet(fleet: &mut Vec<Ship>, class: ShipType, location: &Location) -> (found: bool)
    ensures
        match first_index(ship_views(old(fleet)@), placed_at(class, *location)) {
            Some(i) => found && ship_views(final(fleet)@) == ship_views(old(fleet)@).update(
                i,
                ShipView {
                    class,
                    locations: Seq::empty(),
                    hits: ship_views(old(fleet)@)[i].hits,
                },
            ),
            None => !found && final(fleet)@ == old(fleet)@,
        },
{
    let ghost f = ship_views(fleet@);
    let mut i: usize = 0;
    while i < fleet.len()
        invariant
            i <= fleet.len(),
            fleet@ == old(fleet)@,
            f == ship_views(fleet@),
            forall|j: int| 0 <= j < i ==> !placed_at(class, *location)(#[trigger] f[j]),
        decreases fleet.len() - i,
    {
        if fleet[i].class == class && contains_location(&fleet[i].locations, location) {
            proof {
                lemma_first_index(f, placed_at(class, *location), i as int);
            }
            fleet[i].locations = Vec::new();
            assert(ship_views(fleet@) =~= f.update(
                i as int,
                ShipView { class, locations: Seq::empty(), hits: f[i as int].hits },
            ));
            return true;
        }
        i += 1;
    }
    proof {
        lemma_first_index_none(f, placed_at(class, *location));
    }
    false
}

/// Takes the first ship of `class` in `player`'s fleet that covers `location`
/// off the grid. Like placement, this is refused once setup is over.
pub fn remove(game_state: &GameState, player: PlayerType, class: ShipType, location: Location) -> (r:
    Result<GameState, GameError>)
    ensures
        result_view(r) == remove_spec(game_state@, player, class, location),
        r is Ok && game_state@.consistent() ==> r->Ok_0@.consistent(),
{
    if game_state.result != GameResult::InSetup {
        return Err(GameError::NotInSetup);
    }
    let mut game = game_state.clone();
    let found = match player {
        PlayerType::Player1 => clear_from_fleet(&mut game.p1_ships, class, &location),
        PlayerType::Player2 => clear_from_fleet(&mut game.p2_ships, class, &location),
    };
    if found {
        assert(game@ =~= remove_spec(game_state@, player, class, location)->Ok_0);
        proof {
            if game_state@.consistent() {
                lemma_remove_keeps_consistent(game_state@, player, class, location);
            }
        }
        Ok(game)
    } else {
        Err(GameError::NotFound { class, location })
    }
}

fn sunk_message(player: PlayerType, class: ShipType) -> (r: String)
    ensures
        r@ == sunk_text(player, class),
{
    let mut s = player.name();
    s.append(" sunk ");
    s.append(PlayerType::other(&player).name().as_str());
    s.append("'s ");
    s.append(class.to_string().as_str());
    s.append("!");
    s
}

fn hit_message(player: PlayerType, location: &Location) -> (r: String)
    ensures
        r@ == hit_text(player, *location),
{
    let mut s = player.name();
    s.append(" fires at ");
    s.append(location.display().as_str());
    s.append(" and hits ");
    s.append(PlayerType::other(&player).name().as_str());
    s.append("'s ship!");
    s
}

fn miss_message(player: PlayerType, location: &Location) -> (r: String)
    ensures
        r@ == miss_text(player, *location),
{
    let mut s = player.name();
    s.append(" fires at ");
    s.append(location.display().as_str());
    s.append(" and misses!");
    s
}

fn win_message(player: PlayerType) -> (r: String)
    ensures
        r@ == win_text(player),
{
    let mut s = String::from_str("Game over. ");
    s.append(player.name().as_str());
    s.append(" wins!");
    s
}

fn has_shot_at(shots: &Vec<Shot>, location: &Location) -> (r: bool)
    ensures
        r == shot_at(shots@, *location),
{
    let mut i: usize = 0;
    while i < shots.len()
        invariant
            i <= shots.len(),
            forall|j: int| 0 <= j < i ==> (#[trigger] shots@[j]).location != *location,
        decreases shots.len() - i,
    {
        if shots[i].location == *location {
            return true;
        }
        i += 1;
    }
    false
}

fn fleet_sunk(fleet: &Vec<Ship>) -> (r: bool)
    ensures
        r == all_sunk(ship_views(fleet@)),
{
    let ghost f = ship_views(fleet@);
    let mut i: usize = 0;
    while i < fleet.len()
        invariant
            i <= fleet.len(),
            f == ship_views(fleet@),
            forall|j: int| 0 <= j < i ==> (#[trigger] f[j]).sunk(),
        decreases fleet.len() - i,
    {
        if !fleet[i].sunk() {
            assert(!f[i as int].sunk());
            return false;
        }
        i += 1;
    }
    true
}

/// Records a hit on the first ship of the fleet that covers `location`, and
/// returns its class and whether the hit sank it.
fn strike(fleet: &mut Vec<Ship>, location: &Location) -> (r: Option<(ShipType, bool)>)
    requires
        hits_bounded(ship_views(old(fleet)@)),
    ensures
        ship_views(final(fleet)@) == struck(ship_views(old(fleet)@), *location),
        match first_index(ship_views(old(fleet)@), covering(*location)) {
            Some(i) => r == Some(
                (
                    ship_views(old(fleet)@)[i].class,
                    ship_views(old(fleet)@)[i].hits + 1 == class_size(
                        ship_views(old(fleet)@)[i].class,
                    ),
                ),
            ),
            None => r is None,
        },
{
    let ghost f = ship_views(fleet@);
    let mut i: usize = 0;
    while i < fleet.len()
        invariant
            i <= fleet.len(),
            fleet@ == old(fleet)@,
            f == ship_views(fleet@),
            hits_bounded(f),
            forall|j: int| 0 <= j < i ==> !covering(*location)(#[trigger] f[j]),
        decreases fleet.len() - i,
    {
        if contains_location(&fleet[i].locations, location) {
            proof {
                lemma_first_index(f, covering(*location), i as int);
                assert(f[i as int].hits <= class_size(f[i as int].class));
            }
            let hits = fleet[i].hits + 1;
            fleet[i].hits = hits;
            let class = fleet[i].class;
            let sunk = fleet[i].sunk();
            assert(ship_views(fleet@) =~= struck(f, *location));
            return Some((class, sunk));
        }
        i += 1;
    }
    proof {
        lemma_first_index_none(f, covering(*location));
    }
    None
}

/// Fires `player`'s shot at `location`: only while the game is in progress,
/// on the player's turn, inside the grid, and at a cell the player has not
/// fired at before. The first opposing ship covering the cell takes a hit,
/// the shot and one message are recorded, and the game ends when the
/// opposing fleet is all sunk; otherwise the turn passes.
pub fn fire(game_state: GameState, player: PlayerType, location: &Location) -> (r: Result<
    GameState,
    GameError,
>)
    requires
        hits_bounded(game_state@.fleet(other_player(player))),
    ensures
        result_view(r) == fire_spec(game_state@, player, *location),
        r is Ok && game_state@.consistent() ==> r->Ok_0@.consistent(),
{
    if game_state.result != GameResult::InProgress {
        return Err(GameError::NotInProgress);
    }
    if game_state.turn != PlayerTurn::from(&player) {
        return Err(GameError::NotYourTurn { player });
    }
    if location.row >= GRID_HEIGHT || location.col >= GRID_WIDTH {
        return Err(GameError::OutOfBounds { location: *location });
    }
    if has_shot_at(game_state.shots(&player), location) {
        return Err(GameError::AlreadyFired { location: *location });
    }
    let ghost g = game_state@;
    let opponent = PlayerType::other(&player);
    let mut next = game_state;
    let outcome = strike(next.ships_mut(&opponent), location);
    let hit = outcome.is_some();
    next.shots_mut(&player).push(Shot { location: *location, hit });
    let message = match outcome {
        Some((class, true)) => sunk_message(player, class),
        Some(_) => hit_message(player, location),
        None => miss_message(player, location),
    };
    let ghost before = next.messages@;
    next.messages.push(message);
    assert(texts(next.messages@) =~= g.messages.push(shot_message(g, player, *location))) by {
        assert(texts(next.messages@) =~= texts(before).push(next.messages@.last()@));
    }
    if fleet_sunk(next.ships(&opponent)) {
        next.result = GameResult::player_win(&player);
        let ghost before_win = next.messages@;
        next.messages.push(win_message(player));
        assert(texts(next.messages@) =~= texts(before_win).push(win_text(player)));
        next.turn = PlayerTurn::Neither;
    } else {
        next.turn = PlayerTurn::from(&opponent);
    }
    assert(next@ =~= after_shot(g, player, *location));
    proof {
        if g.consistent() {
            lemma_fire_keeps_consistent(g, player, *location);
        }
    }
    Ok(next)
}

} // verus!
