//! Facts about the transitions of a game, proved over their specifications.
use vstd::prelude::*;
use crate::game::{
    Direction, GameError, GameResult, GameView, GRID_HEIGHT, GRID_WIDTH, all_sunk, cells_shot,
    covering, expansion, fire_spec, first_index, fits, fleet_consistent, hits_bounded, in_grid,
    is_first, lemma_first_index, lemma_first_index_none, place_spec, placed_at, remove_spec,
    run_cells, shot_at, shot_message, standard_fleet, struck, sunk_text, unplaced_of,
    win_of,
};
use crate::location::Location;
use crate::player::{PlayerType, PlayerTurn, other_player, turn_of};
use crate::ship::{ShipType, ShipView, class_size};
use crate::shot::Shot;

verus! {

/// The cells form one straight run of consecutive cells: down a column for
/// Up and Down, along a row for Left and Right.
pub open spec fn straight_run(cells: Seq<Location>, d: Direction) -> bool {
    match d {
        Direction::Up | Direction::Down => forall|k: int|
            0 <= k < cells.len() ==> (#[trigger] cells[k]).col == cells[0].col && cells[k].row
                == cells[0].row + k,
        Direction::Left | Direction::Right => forall|k: int|
            0 <= k < cells.len() ==> (#[trigger] cells[k]).row == cells[0].row && cells[k].col
                == cells[0].col + k,
    }
}

/// Up and Left runs end at the anchor; Down and Right runs start at it.
pub open spec fn anchored(cells: Seq<Location>, l: Location, d: Direction) -> bool {
    match d {
        Direction::Up | Direction::Left => cells.last() == l,
        Direction::Down | Direction::Right => cells[0] == l,
    }
}

/// A successful placement puts the first unplaced ship of the class on
/// exactly its size in cells, all on the grid, in one straight run in the
/// chosen direction, anchored as that direction says.
pub proof fn lemma_placement_is_straight_run(
    g: GameView,
    p: PlayerType,
    c: ShipType,
    l: Location,
    d: Direction,
)
    requires
        place_spec(g, p, c, l, d) is Ok,
    ensures
        ({
            let i = first_index(g.fleet(p), unplaced_of(c))->Some_0;
            let ship = place_spec(g, p, c, l, d)->Ok_0.fleet(p)[i];
            &&& 0 <= i < g.fleet(p).len()
            &&& ship.class == c
            &&& ship.locations.len() == class_size(c)
            &&& forall|k: int| 0 <= k < ship.locations.len() ==> in_grid(#[trigger] ship.locations[k])
            &&& straight_run(ship.locations, d)
            &&& anchored(ship.locations, l, d)
        }),
{
    let f = g.fleet(p);
    let i = first_index(f, unplaced_of(c))->Some_0;
    assert(is_first(f, unplaced_of(c), i));
    let cells = run_cells(l, class_size(c), d);
    assert(expansion(l, c, d) == Some(cells));
}

/// Placing a ship on a run that covers a cell of any ship of either player
/// never succeeds; during setup, with a run that fits, it fails with the
/// overlap error whatever the direction.
pub proof fn lemma_overlap_refused(
    g: GameView,
    p: PlayerType,
    c: ShipType,
    l: Location,
    d: Direction,
    k: int,
)
    requires
        expansion(l, c, d) is Some,
        0 <= k < class_size(c),
        g.occupied(expansion(l, c, d)->Some_0[k]),
    ensures
        place_spec(g, p, c, l, d) is Err,
        g.result == GameResult::InSetup ==> place_spec(g, p, c, l, d) == Err::<GameView, GameError>(
            GameError::Overlap { location: l, direction: d },
        ),
{
    let cells = expansion(l, c, d)->Some_0;
    assert(g.occupied(cells[k]));
}

/// No shot is accepted during setup, nor from the player whose turn it is
/// not while the game is in progress.
pub proof fn lemma_fire_needs_game_and_turn(g: GameView, p: PlayerType, l: Location)
    ensures
        g.result == GameResult::InSetup ==> fire_spec(g, p, l) == Err::<GameView, GameError>(
            GameError::NotInProgress,
        ),
        g.result == GameResult::InProgress && g.turn != turn_of(p) ==> fire_spec(g, p, l) == Err::<
            GameView,
            GameError,
        >(GameError::NotYourTurn { player: p }),
{
}

/// Once a player has fired at a cell, firing there again fails, whatever
/// the turn marker is set to in between.
pub proof fn lemma_second_shot_refused(g: GameView, p: PlayerType, l: Location, t: PlayerTurn)
    requires
        fire_spec(g, p, l) is Ok,
    ensures
        fire_spec(GameView { turn: t, ..fire_spec(g, p, l)->Ok_0 }, p, l) is Err,
{
    let g2 = fire_spec(g, p, l)->Ok_0;
    let shots = g2.shots(p);
    assert(shots[shots.len() - 1].location == l);
    assert(shot_at(shots, l));
}

/// A shot outside the grid is always refused, and during play on the
/// player's turn it is refused as out of bounds.
pub proof fn lemma_out_of_bounds_refused(g: GameView, p: PlayerType, l: Location)
    requires
        l.row >= GRID_HEIGHT || l.col >= GRID_WIDTH,
    ensures
        fire_spec(g, p, l) is Err,
        g.result == GameResult::InProgress && g.turn == turn_of(p) ==> fire_spec(g, p, l) == Err::<
            GameView,
            GameError,
        >(GameError::OutOfBounds { location: l }),
{
}

/// A shot that leaves the opposing fleet all sunk wins the game for the
/// shooter, ends all turns, and no shot by anyone succeeds afterwards; a
/// shot that leaves a ship afloat passes the turn.
pub proof fn lemma_last_ship_sunk_ends_game(
    g: GameView,
    p: PlayerType,
    l: Location,
    q: PlayerType,
    l2: Location,
)
    requires
        fire_spec(g, p, l) is Ok,
    ensures
        ({
            let g2 = fire_spec(g, p, l)->Ok_0;
            if all_sunk(g2.fleet(other_player(p))) {
                &&& g2.result == win_of(p)
                &&& g2.turn == PlayerTurn::Neither
                &&& fire_spec(g2, q, l2) is Err
            } else {
                &&& g2.result == GameResult::InProgress
                &&& g2.turn == turn_of(other_player(p))
            }
        }),
{
    let q2 = other_player(p);
    let g2 = fire_spec(g, p, l)->Ok_0;
    assert(g2.fleet(q2) == struck(g.fleet(q2), l));
}

/// How many ships of class `c` in the fleet are still unplaced.
pub open spec fn unplaced_count(f: Seq<ShipView>, c: ShipType) -> nat
    decreases f.len(),
{
    if f.len() == 0 {
        0
    } else {
        unplaced_count(f.drop_last(), c) + if unplaced_of(c)(f.last()) {
            1nat
        } else {
            0nat
        }
    }
}

proof fn lemma_unplaced_count_update(f: Seq<ShipView>, c: ShipType, i: int, x: ShipView)
    requires
        0 <= i < f.len(),
    ensures
        unplaced_count(f.update(i, x), c) + (if unplaced_of(c)(f[i]) { 1nat } else { 0nat })
            == unplaced_count(f, c) + (if unplaced_of(c)(x) { 1nat } else { 0nat }),
    decreases f.len(),
{
    if i == f.len() - 1 {
        assert(f.update(i, x).drop_last() == f.drop_last());
    } else {
        assert(f.update(i, x).drop_last() == f.drop_last().update(i, x));
        lemma_unplaced_count_update(f.drop_last(), c, i, x);
    }
}

proof fn lemma_unplaced_count_zero(f: Seq<ShipView>, c: ShipType)
    requires
        unplaced_count(f, c) == 0,
    ensures
        forall|j: int| 0 <= j < f.len() ==> !unplaced_of(c)(#[trigger] f[j]),
    decreases f.len(),
{
    if f.len() > 0 {
        lemma_unplaced_count_zero(f.drop_last(), c);
        assert forall|j: int| 0 <= j < f.len() implies !unplaced_of(c)(#[trigger] f[j]) by {
            if j < f.len() - 1 {
                assert(f.drop_last()[j] == f[j]);
            }
        }
    }
}

/// Each player's starting fleet holds one Battleship, two Carriers, two
/// Submarines, two Destroyers and no Cruiser, all unplaced.
pub proof fn lemma_standard_fleet_counts()
    ensures
        unplaced_count(standard_fleet(), ShipType::Battleship) == 1,
        unplaced_count(standard_fleet(), ShipType::Carrier) == 2,
        unplaced_count(standard_fleet(), ShipType::Cruiser) == 0,
        unplaced_count(standard_fleet(), ShipType::Submarine) == 2,
        unplaced_count(standard_fleet(), ShipType::Destroyer) == 2,
{
    reveal_with_fuel(unplaced_count, 8);
    let f = standard_fleet();
    assert(f.drop_last() =~= f.subrange(0, 6));
    assert(f.subrange(0, 6).drop_last() =~= f.subrange(0, 5));
    assert(f.subrange(0, 5).drop_last() =~= f.subrange(0, 4));
    assert(f.subrange(0, 4).drop_last() =~= f.subrange(0, 3));
    assert(f.subrange(0, 3).drop_last() =~= f.subrange(0, 2));
    assert(f.subrange(0, 2).drop_last() =~= f.subrange(0, 1));
    assert(f.subrange(0, 1).drop_last() =~= Seq::<ShipView>::empty());
}

/// Every successful placement uses up one unplaced ship of its class in the
/// placing player's fleet and leaves the other fleet alone; with none left,
/// placement never succeeds, and during setup, on a free run that fits, it
/// fails with the no-ships-left error. So the placement after as many as
/// the fleet holds of a class fails.
pub proof fn lemma_placement_uses_up_class(
    g: GameView,
    p: PlayerType,
    c: ShipType,
    l: Location,
    d: Direction,
)
    ensures
        place_spec(g, p, c, l, d) is Ok ==> {
            let g2 = place_spec(g, p, c, l, d)->Ok_0;
            &&& unplaced_count(g2.fleet(p), c) + 1 == unplaced_count(g.fleet(p), c)
            &&& g2.fleet(other_player(p)) == g.fleet(other_player(p))
        },
        unplaced_count(g.fleet(p), c) == 0 ==> place_spec(g, p, c, l, d) is Err,
        unplaced_count(g.fleet(p), c) == 0 && g.result == GameResult::InSetup && expansion(l, c, d) is Some
            && (forall|k: int| 0 <= k < class_size(c) ==> !g.occupied(#[trigger] expansion(l, c, d)->Some_0[k]))
            ==> place_spec(g, p, c, l, d) == Err::<GameView, GameError>(GameError::NoShipsLeft { class: c }),
{
    let f = g.fleet(p);
    if place_spec(g, p, c, l, d) is Ok {
        let i = first_index(f, unplaced_of(c))->Some_0;
        assert(is_first(f, unplaced_of(c), i));
        let cells = expansion(l, c, d)->Some_0;
        let x = ShipView { class: c, locations: cells, hits: f[i].hits };
        lemma_unplaced_count_update(f, c, i, x);
    }
    if unplaced_count(f, c) == 0 {
        lemma_unplaced_count_zero(f, c);
        lemma_first_index_none(f, unplaced_of(c));
    }
}

proof fn lemma_cells_shot_no_shots(locs: Seq<Location>)
    ensures
        cells_shot(locs, Seq::empty()) == 0,
    decreases locs.len(),
{
    if locs.len() > 0 {
        lemma_cells_shot_no_shots(locs.drop_last());
    }
}

proof fn lemma_cells_shot_bounded(locs: Seq<Location>, shots: Seq<Shot>)
    ensures
        cells_shot(locs, shots) <= locs.len(),
    decreases locs.len(),
{
    if locs.len() > 0 {
        lemma_cells_shot_bounded(locs.drop_last(), shots);
    }
}

proof fn lemma_cells_shot_all(locs: Seq<Location>, shots: Seq<Shot>)
    requires
        forall|k: int| 0 <= k < locs.len() ==> shot_at(shots, #[trigger] locs[k]),
    ensures
        cells_shot(locs, shots) == locs.len(),
    decreases locs.len(),
{
    if locs.len() > 0 {
        let init = locs.drop_last();
        assert forall|k: int| 0 <= k < init.len() implies shot_at(shots, #[trigger] init[k]) by {
            assert(init[k] == locs[k]);
        }
        lemma_cells_shot_all(init, shots);
        assert(shot_at(shots, locs[locs.len() - 1]));
    }
}

/// A new shot at a cell not fired at before adds one struck cell to a ship
/// exactly when the ship covers that cell.
proof fn lemma_cells_shot_push(locs: Seq<Location>, shots: Seq<Shot>, x: Shot)
    requires
        locs.no_duplicates(),
        !shot_at(shots, x.location),
    ensures
        cells_shot(locs, shots.push(x)) == cells_shot(locs, shots) + if locs.contains(x.location) {
            1nat
        } else {
            0nat
        },
    decreases locs.len(),
{
    if locs.len() > 0 {
        let init = locs.drop_last();
        let m = locs.last();
        assert(init.no_duplicates());
        lemma_cells_shot_push(init, shots, x);
        let s2 = shots.push(x);
        if shot_at(shots, m) {
            let w = choose|w: int| 0 <= w < shots.len() && (#[trigger] shots[w]).location == m;
            assert(s2[w] == shots[w]);
        }
        if m == x.location {
            assert(s2[shots.len() as int] == x);
            assert(!init.contains(x.location)) by {
                if init.contains(x.location) {
                    let w = choose|w: int| 0 <= w < init.len() && init[w] == x.location;
                    assert(locs[w] == locs[locs.len() - 1]);
                }
            }
        } else {
            if shot_at(s2, m) {
                let w = choose|w: int| 0 <= w < s2.len() && (#[trigger] s2[w]).location == m;
                assert(shots[w] == s2[w]);
            }
        }
        assert(locs.contains(x.location) == (init.contains(x.location) || m == x.location)) by {
            if locs.contains(x.location) && m != x.location {
                let w = choose|w: int| 0 <= w < locs.len() && locs[w] == x.location;
                assert(init[w] == locs[w]);
            }
            if init.contains(x.location) {
                let w = choose|w: int| 0 <= w < init.len() && init[w] == x.location;
                assert(locs[w] == init[w]);
            }
        }
    }
}

proof fn lemma_first_exists(f: Seq<ShipView>, pred: spec_fn(ShipView) -> bool, j: int)
    requires
        0 <= j < f.len(),
        pred(f[j]),
    ensures
        first_index(f, pred) is Some,
    decreases j,
{
    if forall|k: int| 0 <= k < j ==> !pred(#[trigger] f[k]) {
        lemma_first_index(f, pred, j);
    } else {
        let k = choose|k: int| 0 <= k < j && pred(#[trigger] f[k]);
        lemma_first_exists(f, pred, k);
    }
}

/// The distinct cells of a run.
proof fn lemma_run_cells_distinct(l: Location, c: ShipType, d: Direction)
    requires
        fits(l, class_size(c), d),
    ensures
        run_cells(l, class_size(c), d).no_duplicates(),
        forall|k: int|
            0 <= k < class_size(c) ==> in_grid(#[trigger] run_cells(l, class_size(c), d)[k]),
{
}

/// In a consistent game no ship has been hit more often than it has cells,
/// which is what `fire` asks of the opposing fleet.
pub proof fn lemma_consistent_implies_bounded(g: GameView, p: PlayerType)
    requires
        g.consistent(),
    ensures
        hits_bounded(g.fleet(p)),
{
}

/// Placing a ship keeps the invariant.
pub proof fn lemma_place_keeps_consistent(
    g: GameView,
    p: PlayerType,
    c: ShipType,
    l: Location,
    d: Direction,
)
    requires
        g.consistent(),
        place_spec(g, p, c, l, d) is Ok,
    ensures
        place_spec(g, p, c, l, d)->Ok_0.consistent(),
{
    let g2 = place_spec(g, p, c, l, d)->Ok_0;
    let f = g.fleet(p);
    let i = first_index(f, unplaced_of(c))->Some_0;
    assert(is_first(f, unplaced_of(c), i));
    let cells = run_cells(l, class_size(c), d);
    assert(expansion(l, c, d) == Some(cells));
    lemma_run_cells_distinct(l, c, d);
    lemma_cells_shot_no_shots(cells);
    lemma_cells_shot_no_shots(f[i].locations);
    let opp = g.shots(other_player(p));
    assert(opp =~= Seq::<Shot>::empty());
    let f2 = g2.fleet(p);
    assert(f2 == f.update(i, ShipView { class: c, locations: cells, hits: f[i].hits }));
    assert forall|a: int, b: int, m: Location|
        #![trigger f2[a].locations.contains(m), f2[b].locations.contains(m)]
        0 <= a < f2.len() && 0 <= b < f2.len() && a != b && f2[a].locations.contains(m)
        implies !f2[b].locations.contains(m) by {
        if a == i || b == i {
            let other = if a == i { b } else { a };
            if cells.contains(m) && f[other].locations.contains(m) {
                let k = choose|k: int| 0 <= k < cells.len() && cells[k] == m;
                assert(g.occupied(cells[k])) by {
                    match p {
                        PlayerType::Player1 => assert(crate::game::covers(g.p1_ships, m)),
                        PlayerType::Player2 => assert(crate::game::covers(g.p2_ships, m)),
                    }
                }
            }
        }
    }
    assert(fleet_consistent(f2, opp));
}

/// Removing a ship keeps the invariant.
pub proof fn lemma_remove_keeps_consistent(g: GameView, p: PlayerType, c: ShipType, l: Location)
    requires
        g.consistent(),
        remove_spec(g, p, c, l) is Ok,
    ensures
        remove_spec(g, p, c, l)->Ok_0.consistent(),
{
    let g2 = remove_spec(g, p, c, l)->Ok_0;
    let f = g.fleet(p);
    let i = first_index(f, placed_at(c, l))->Some_0;
    assert(is_first(f, placed_at(c, l), i));
    lemma_cells_shot_no_shots(f[i].locations);
    lemma_cells_shot_no_shots(Seq::<Location>::empty());
    let opp = g.shots(other_player(p));
    assert(opp =~= Seq::<Shot>::empty());
    let f2 = g2.fleet(p);
    assert(f2[i].locations.no_duplicates());
    assert(fleet_consistent(f2, opp));
}

/// Firing a shot keeps the invariant.
pub proof fn lemma_fire_keeps_consistent(g: GameView, p: PlayerType, l: Location)
    requires
        g.consistent(),
        fire_spec(g, p, l) is Ok,
    ensures
        fire_spec(g, p, l)->Ok_0.consistent(),
{
    let q = other_player(p);
    let g2 = fire_spec(g, p, l)->Ok_0;
    let f = g.fleet(q);
    let f2 = g2.fleet(q);
    let shots = g.shots(p);
    let hit = first_index(f, covering(l)) is Some;
    let x = Shot { location: l, hit };
    let shots2 = shots.push(x);
    assert(g2.shots(p) == shots2);
    assert(f2 == struck(f, l));
    assert forall|k: int| 0 <= k < f.len() implies cells_shot((#[trigger] f[k]).locations, shots2)
        == cells_shot(f[k].locations, shots) + if f[k].locations.contains(l) {
        1nat
    } else {
        0nat
    } by {
        assert(f[k].wf());
        lemma_cells_shot_push(f[k].locations, shots, x);
    }
    match first_index(f, covering(l)) {
        Some(i) => {
            assert(is_first(f, covering(l), i));
            assert(f[i].locations.contains(l));
            lemma_cells_shot_bounded(f[i].locations, shots2);
            assert forall|k: int| 0 <= k < f2.len() implies (#[trigger] f2[k]).hits == cells_shot(
                f2[k].locations,
                shots2,
            ) by {
                if k != i {
                    assert(!f[k].locations.contains(l));
                }
            }
        },
        None => {
            assert forall|k: int| 0 <= k < f.len() implies !(#[trigger] f[k]).locations.contains(
                l,
            ) by {
                if f[k].locations.contains(l) {
                    lemma_first_exists(f, covering(l), k);
                }
            }
        },
    }
    assert(fleet_consistent(f2, shots2));
    assert(g2.fleet(p) == g.fleet(p));
    assert(g2.shots(q) == g.shots(q));
}

/// In a consistent game, the shot that strikes the last unstruck cell of an
/// opposing ship sinks it and logs that it was sunk.
pub proof fn lemma_last_cell_sinks_ship(g: GameView, p: PlayerType, l: Location, i: int)
    requires
        g.consistent(),
        fire_spec(g, p, l) is Ok,
        0 <= i < g.fleet(other_player(p)).len(),
        g.fleet(other_player(p))[i].locations.contains(l),
        forall|m: Location|
            #![trigger g.fleet(other_player(p))[i].locations.contains(m)]
            g.fleet(other_player(p))[i].locations.contains(m) && m != l ==> shot_at(g.shots(p), m),
    ensures
        ({
            let g2 = fire_spec(g, p, l)->Ok_0;
            &&& g2.fleet(other_player(p))[i].sunk()
            &&& g2.messages.len() > g.messages.len()
            &&& g2.messages[g.messages.len() as int] == sunk_text(
                p,
                g.fleet(other_player(p))[i].class,
            )
        }),
{
    let q = other_player(p);
    let f = g.fleet(q);
    let shots = g.shots(p);
    let locs = f[i].locations;
    assert forall|j: int| 0 <= j < i implies !covering(l)(#[trigger] f[j]) by {
        assert(f[i].locations.contains(l));
    }
    lemma_first_index(f, covering(l), i);
    let x = Shot { location: l, hit: true };
    let shots2 = shots.push(x);
    assert(f[i].wf());
    lemma_cells_shot_push(locs, shots, x);
    assert forall|k: int| 0 <= k < locs.len() implies shot_at(shots2, #[trigger] locs[k]) by {
        assert(locs.contains(locs[k]));
        if locs[k] == l {
            assert(shots2[shots.len() as int] == x);
        } else {
            let w = choose|w: int| 0 <= w < shots.len() && (#[trigger] shots[w]).location == locs[k];
            assert(shots2[w] == shots[w]);
        }
    }
    lemma_cells_shot_all(locs, shots2);
    assert(shot_message(g, p, l) == sunk_text(p, f[i].class));
}

proof fn lemma_cells_shot_missing(locs: Seq<Location>, shots: Seq<Shot>, k: int)
    requires
        0 <= k < locs.len(),
        !shot_at(shots, locs[k]),
    ensures
        cells_shot(locs, shots) < locs.len(),
    decreases locs.len(),
{
    let init = locs.drop_last();
    if k == locs.len() - 1 {
        lemma_cells_shot_bounded(init, shots);
    } else {
        assert(init[k] == locs[k]);
        lemma_cells_shot_missing(init, shots, k);
    }
}

/// In a consistent game a placed ship is sunk exactly when its opponent has
/// fired at every one of its cells.
pub proof fn lemma_sunk_iff_all_cells_shot(g: GameView, q: PlayerType, i: int)
    requires
        g.consistent(),
        0 <= i < g.fleet(q).len(),
        g.fleet(q)[i].locations.len() > 0,
    ensures
        g.fleet(q)[i].sunk() <==> forall|k: int|
            0 <= k < g.fleet(q)[i].locations.len() ==> shot_at(
                g.shots(other_player(q)),
                #[trigger] g.fleet(q)[i].locations[k],
            ),
{
    let locs = g.fleet(q)[i].locations;
    let shots = g.shots(other_player(q));
    assert(g.fleet(q)[i].wf());
    if forall|k: int| 0 <= k < locs.len() ==> shot_at(shots, #[trigger] locs[k]) {
        lemma_cells_shot_all(locs, shots);
    } else {
        let k = choose|k: int| 0 <= k < locs.len() && !shot_at(shots, #[trigger] locs[k]);
        lemma_cells_shot_missing(locs, shots, k);
    }
}

/// The game after `p` fires at each cell of `ls` in turn, with the turn
/// handed back to `p` after each shot; the first refused shot ends it.
pub open spec fn fire_each(g: GameView, p: PlayerType, ls: Seq<Location>) -> Result<
    GameView,
    GameError,
>
    decreases ls.len(),
{
    if ls.len() == 0 {
        Ok(g)
    } else {
        match fire_spec(g, p, ls[0]) {
            Ok(g2) => fire_each(GameView { turn: turn_of(p), ..g2 }, p, ls.drop_first()),
            Err(e) => Err(e),
        }
    }
}

proof fn lemma_fire_each(g: GameView, p: PlayerType, ls: Seq<Location>)
    requires
        g.consistent(),
        fire_each(g, p, ls) is Ok,
    ensures
        ({
            let g2 = fire_each(g, p, ls)->Ok_0;
            let q = other_player(p);
            &&& g2.consistent()
            &&& g2.fleet(q).len() == g.fleet(q).len()
            &&& forall|k: int|
                0 <= k < g.fleet(q).len() ==> (#[trigger] g2.fleet(q)[k]).locations == g.fleet(
                    q,
                )[k].locations
            &&& forall|j: int| 0 <= j < ls.len() ==> shot_at(g2.shots(p), #[trigger] ls[j])
            &&& forall|m: Location| shot_at(g.shots(p), m) ==> #[trigger] shot_at(g2.shots(p), m)
        }),
    decreases ls.len(),
{
    if ls.len() > 0 {
        let q = other_player(p);
        let g1 = fire_spec(g, p, ls[0])->Ok_0;
        let g1t = GameView { turn: turn_of(p), ..g1 };
        lemma_fire_keeps_consistent(g, p, ls[0]);
        assert(g1t.consistent());
        lemma_fire_each(g1t, p, ls.drop_first());
        let g2 = fire_each(g, p, ls)->Ok_0;
        let shots = g.shots(p);
        let hit = first_index(g.fleet(q), covering(ls[0])) is Some;
        let shots1 = shots.push(Shot { location: ls[0], hit });
        assert(g1t.shots(p) == shots1);
        assert(g1t.fleet(q) == struck(g.fleet(q), ls[0]));
        assert(shot_at(shots1, ls[0])) by {
            assert(shots1[shots.len() as int].location == ls[0]);
        }
        assert forall|m: Location| shot_at(shots, m) implies #[trigger] shot_at(shots1, m) by {
            let w = choose|w: int| 0 <= w < shots.len() && (#[trigger] shots[w]).location == m;
            assert(shots1[w] == shots[w]);
        }
        assert forall|j: int| 0 <= j < ls.len() implies shot_at(g2.shots(p), #[trigger] ls[j]) by {
            if j > 0 {
                assert(ls.drop_first()[j - 1] == ls[j]);
            }
        }
    }
}

/// Shots by one player that together strike every cell of a placed
/// opposing ship leave that ship sunk: starting from a consistent game (a
/// new one, or any that the transitions reach from it), if `p` fires at
/// each cell of `ls` in turn and every shot is accepted, then every ship of
/// the opponent whose cells all occur in `ls` is sunk afterwards.
pub proof fn lemma_shots_at_every_cell_sink_ship(
    g: GameView,
    p: PlayerType,
    ls: Seq<Location>,
    i: int,
)
    requires
        g.consistent(),
        fire_each(g, p, ls) is Ok,
        0 <= i < g.fleet(other_player(p)).len(),
        g.fleet(other_player(p))[i].locations.len() > 0,
        forall|k: int|
            0 <= k < g.fleet(other_player(p))[i].locations.len() ==> ls.contains(
                #[trigger] g.fleet(other_player(p))[i].locations[k],
            ),
    ensures
        fire_each(g, p, ls)->Ok_0.fleet(other_player(p))[i].sunk(),
{
    let q = other_player(p);
    let g2 = fire_each(g, p, ls)->Ok_0;
    lemma_fire_each(g, p, ls);
    let locs = g2.fleet(q)[i].locations;
    assert(locs == g.fleet(q)[i].locations);
    assert forall|k: int| 0 <= k < locs.len() implies shot_at(
        g2.shots(other_player(q)),
        #[trigger] locs[k],
    ) by {
        assert(ls.contains(g.fleet(q)[i].locations[k]));
        let j = choose|j: int| 0 <= j < ls.len() && ls[j] == locs[k];
        assert(shot_at(g2.shots(p), ls[j]));
    }
    lemma_sunk_iff_all_cells_shot(g2, q, i);
}

} // verus!
