//! Ship classes, ships, and their text encoding.
use vstd::prelude::*;
use crate::location::{Location, locations_code, locations_decode, locations_from_chars, locations_to_string};
use crate::text::{
    ParseError, chars_of, decimal, decimal_text, join, parse_u32, parse_u32_spec, same_chars, split,
    split_chars, views,
};

verus! {

/// The five ship classes.
#[derive(Clone, Copy, Debug, PartialEq, Eq, Structural)]
pub enum ShipType {
    Carrier,
    Battleship,
    Cruiser,
    Submarine,
    Destroyer,
}

pub open spec fn class_size(c: ShipType) -> nat {
    match c {
        ShipType::Carrier => 5,
        ShipType::Battleship => 4,
        ShipType::Cruiser => 3,
        ShipType::Submarine => 2,
        ShipType::Destroyer => 2,
    }
}

/// The class's name, as written in messages and in the ship encoding.
pub open spec fn class_name(c: ShipType) -> Seq<char> {
    match c {
        ShipType::Carrier => "Carrier"@,
        ShipType::Battleship => "Battleship"@,
        ShipType::Cruiser => "Cruiser"@,
        ShipType::Submarine => "Submarine"@,
        ShipType::Destroyer => "Destroyer"@,
    }
}

impl ShipType {
    /// The number of cells a ship of this class covers.
    pub fn size(&self) -> (r: u32)
        ensures
            r == class_size(*self),
            2 <= r <= 5,
    {
        match self {
            ShipType::Carrier => 5,
            ShipType::Battleship => 4,
            ShipType::Cruiser => 3,
            ShipType::Submarine => 2,
            ShipType::Destroyer => 2,
        }
    }

    pub fn to_string(&self) -> (r: String)
        ensures
            r@ == class_name(*self),
    {
        match self {
            ShipType::Carrier => String::from_str("Carrier"),
            ShipType::Battleship => String::from_str("Battleship"),
            ShipType::Cruiser => String::from_str("Cruiser"),
            ShipType::Submarine => String::from_str("Submarine"),
            ShipType::Destroyer => String::from_str("Destroyer"),
        }
    }
}

/// A ship: its class, the cells it covers (none while unplaced) and how
/// often it has been hit.
#[derive(Debug, PartialEq, Eq)]
pub struct Ship {
    pub class: ShipType,
    pub locations: Vec<Location>,
    pub hits: u32,
}

/// The mathematical value of a ship.
pub struct ShipView {
    pub class: ShipType,
    pub locations: Seq<Location>,
    pub hits: u32,
}

impl View for Ship {
    type V = ShipView;

    open spec fn view(&self) -> ShipView {
        ShipView { class: self.class, locations: self.locations@, hits: self.hits }
    }
}

impl ShipView {
    pub open spec fn sunk(self) -> bool {
        self.hits == class_size(self.class)
    }

    /// A ship is either unplaced or covers exactly its size in distinct
    /// cells, and is never hit more often than it has cells.
    pub open spec fn wf(self) -> bool {
        &&& (self.locations.len() == 0 || self.locations.len() == class_size(self.class))
        &&& self.locations.no_duplicates()
        &&& self.hits <= class_size(self.class)
    }
}

/// An element-by-element copy of a vector of plain values.
pub fn copy_vec<T: Copy>(v: &Vec<T>) -> (r: Vec<T>)
    ensures
        r@ == v@,
{
    let mut r: Vec<T> = Vec::new();
    let mut i: usize = 0;
    while i < v.len()
        invariant
            i <= v.len(),
            r@ == v@.subrange(0, i as int),
        decreases v.len() - i,
    {
        r.push(v[i]);
        i += 1;
    }
    assert(r@ == v@);
    r
}

impl Clone for Ship {
    fn clone(&self) -> (r: Ship)
        ensures
            r@ == self@,
    {
        Ship { class: self.class, locations: copy_vec(&self.locations), hits: self.hits }
    }
}

impl Ship {
    /// An unplaced, unhit ship of `class`.
    pub fn new(class: ShipType) -> (r: Ship)
        ensures
            r@ == (ShipView { class, locations: Seq::empty(), hits: 0 }),
    {
        Ship { class, locations: Vec::new(), hits: 0 }
    }

    pub fn carrier() -> (r: Ship)
        ensures
            r@ == (ShipView { class: ShipType::Carrier, locations: Seq::empty(), hits: 0 }),
    {
        Ship::new(ShipType::Carrier)
    }

    pub fn battleship() -> (r: Ship)
        ensures
            r@ == (ShipView { class: ShipType::Battleship, locations: Seq::empty(), hits: 0 }),
    {
        Ship::new(ShipType::Battleship)
    }

    pub fn cruiser() -> (r: Ship)
        ensures
            r@ == (ShipView { class: ShipType::Cruiser, locations: Seq::empty(), hits: 0 }),
    {
        Ship::new(ShipType::Cruiser)
    }

    pub fn submarine() -> (r: Ship)
        ensures
            r@ == (ShipView { class: ShipType::Submarine, locations: Seq::empty(), hits: 0 }),
    {
        Ship::new(ShipType::Submarine)
    }

    pub fn destroyer() -> (r: Ship)
        ensures
            r@ == (ShipView { class: ShipType::Destroyer, locations: Seq::empty(), hits: 0 }),
    {
        Ship::new(ShipType::Destroyer)
    }

    /// Whether every cell of the ship has been hit.
    pub fn sunk(&self) -> (r: bool)
        ensures
            r == self@.sunk(),
    {
        self.hits == self.class.size()
    }
}

/// The class a name denotes, if any.
pub open spec fn class_decode(s: Seq<char>) -> Option<ShipType> {
    if s == "Carrier"@ {
        Some(ShipType::Carrier)
    } else if s == "Battleship"@ {
        Some(ShipType::Battleship)
    } else if s == "Cruiser"@ {
        Some(ShipType::Cruiser)
    } else if s == "Submarine"@ {
        Some(ShipType::Submarine)
    } else if s == "Destroyer"@ {
        Some(ShipType::Destroyer)
    } else {
        None
    }
}

/// The encoding of a ship: `class|hits|locations`.
pub open spec fn ship_code(s: ShipView) -> Seq<char> {
    class_name(s.class) + "|"@ + decimal(s.hits as nat) + "|"@ + locations_code(s.locations)
}

/// Decoding of a ship: three `|`-separated fields, a known class name, a
/// number of hits, and exactly the class's size in locations.
pub open spec fn ship_decode(s: Seq<char>) -> Result<ShipView, ParseError> {
    let parts = split(s, '|');
    if parts.len() != 3 {
        Err(ParseError::FieldCount { expected: 3, found: parts.len() as usize })
    } else {
        match class_decode(parts[0]) {
            None => Err(ParseError::UnknownShipType),
            Some(class) => match parse_u32_spec(parts[1]) {
                None => Err(ParseError::InvalidHits),
                Some(hits) => match locations_decode(parts[2]) {
                    Err(e) => Err(e),
                    Ok(locations) => if locations.len() != class_size(class) {
                        Err(
                            ParseError::LocationCount {
                                expected: class_size(class) as usize,
                                found: locations.len() as usize,
                            },
                        )
                    } else {
                        Ok(ShipView { class, locations, hits })
                    },
                },
            },
        }
    }
}

/// The ships among `parts` that decode, in order.
pub open spec fn decoded_ships(parts: Seq<Seq<char>>) -> Seq<ShipView>
    decreases parts.len(),
{
    if parts.len() == 0 {
        Seq::empty()
    } else {
        let init = decoded_ships(parts.drop_last());
        match ship_decode(parts.last()) {
            Ok(s) => init.push(s),
            Err(_) => init,
        }
    }
}

/// Decoding of `&`-separated ships: every piece must decode.
pub open spec fn ships_decode(s: Seq<char>) -> Result<Seq<ShipView>, ParseError> {
    let parts = split(s, '&');
    let ships = decoded_ships(parts);
    if ships.len() == parts.len() {
        Ok(ships)
    } else {
        Err(ParseError::ElementCount { expected: parts.len() as usize, found: ships.len() as usize })
    }
}

pub open spec fn ship_views(v: Seq<Ship>) -> Seq<ShipView> {
    v.map_values(|s: Ship| s@)
}

pub open spec fn ships_code(v: Seq<ShipView>) -> Seq<char> {
    join(v.map_values(|s: ShipView| ship_code(s)), "&"@)
}

impl ShipType {
    /// The class named exactly `input`.
    pub fn from_str(input: &str) -> (r: Result<ShipType, ParseError>)
        ensures
            r == match class_decode(input@) {
                Some(c) => Ok::<ShipType, ParseError>(c),
                None => Err(ParseError::UnknownShipType),
            },
    {
        class_from_chars(&chars_of(input))
    }
}

fn class_from_chars(input: &Vec<char>) -> (r: Result<ShipType, ParseError>)
    ensures
        r == match class_decode(input@) {
            Some(c) => Ok::<ShipType, ParseError>(c),
            None => Err(ParseError::UnknownShipType),
        },
{
    if same_chars(input, "Carrier") {
        Ok(ShipType::Carrier)
    } else if same_chars(input, "Battleship") {
        Ok(ShipType::Battleship)
    } else if same_chars(input, "Cruiser") {
        Ok(ShipType::Cruiser)
    } else if same_chars(input, "Submarine") {
        Ok(ShipType::Submarine)
    } else if same_chars(input, "Destroyer") {
        Ok(ShipType::Destroyer)
    } else {
        Err(ParseError::UnknownShipType)
    }
}

impl Ship {
    /// The encoding `class|hits|locations`.
    pub fn to_string(&self) -> (r: String)
        ensures
            r@ == ship_code(self@),
    {
        let mut s = self.class.to_string();
        s.append("|");
        s.append(decimal_text(self.hits).as_str());
        s.append("|");
        s.append(locations_to_string(&self.locations).as_str());
        s
    }

    pub fn from_str(input: &str) -> (r: Result<Ship, ParseError>)
        ensures
            match r {
                Ok(s) => ship_decode(input@) == Ok::<ShipView, ParseError>(s@),
                Err(e) => ship_decode(input@) == Err::<ShipView, ParseError>(e),
            },
    {
        ship_from_chars(&chars_of(input))
    }
}

fn ship_from_chars(input: &Vec<char>) -> (r: Result<Ship, ParseError>)
    ensures
        match r {
            Ok(s) => ship_decode(input@) == Ok::<ShipView, ParseError>(s@),
            Err(e) => ship_decode(input@) == Err::<ShipView, ParseError>(e),
        },
{
    let parts = split_chars(input, '|');
    let ghost ps = views(parts@);
    if parts.len() != 3 {
        return Err(ParseError::FieldCount { expected: 3, found: parts.len() });
    }
    assert(ps[0] == parts@[0]@ && ps[1] == parts@[1]@ && ps[2] == parts@[2]@);
    let class = match class_from_chars(&parts[0]) {
        Ok(c) => c,
        Err(e) => {
            return Err(e);
        },
    };
    let hits = match parse_u32(&parts[1]) {
        Some(h) => h,
        None => {
            return Err(ParseError::InvalidHits);
        },
    };
    let locations = match locations_from_chars(&parts[2]) {
        Ok(v) => v,
        Err(e) => {
            return Err(e);
        },
    };
    if locations.len() != class.size() as usize {
        return Err(
            ParseError::LocationCount { expected: class.size() as usize, found: locations.len() },
        );
    }
    Ok(Ship { class, locations, hits })
}

/// The ships' encodings joined by `&`.
pub fn ships_to_string(ships: &Vec<Ship>) -> (r: String)
    ensures
        r@ == ships_code(ship_views(ships@)),
{
    let ghost codes = ship_views(ships@).map_values(|s: ShipView| ship_code(s));
    let mut s = String::new();
    let mut i: usize = 0;
    while i < ships.len()
        invariant
            i <= ships.len(),
            codes == ship_views(ships@).map_values(|s: ShipView| ship_code(s)),
            s@ == join(codes.subrange(0, i as int), "&"@),
        decreases ships.len() - i,
    {
        let ghost pre = codes.subrange(0, i as int);
        let ghost next = codes.subrange(0, i + 1);
        assert(next.drop_last() == pre);
        if i > 0 {
            s.append("&");
        }
        s.append(ships[i].to_string().as_str());
        assert(s@ == join(next, "&"@)) by {
            if i == 0 {
                assert(s@ =~= next[0]);
            }
        }
        i += 1;
    }
    assert(codes.subrange(0, ships.len() as int) == codes);
    s
}

/// Decodes `&`-separated ships; every piece must decode.
pub fn ships_from_str(serialized: &str) -> (r: Result<Vec<Ship>, ParseError>)
    ensures
        match r {
            Ok(v) => ships_decode(serialized@) == Ok::<Seq<ShipView>, ParseError>(ship_views(v@)),
            Err(e) => ships_decode(serialized@) == Err::<Seq<ShipView>, ParseError>(e),
        },
{
    let parts = split_chars(&chars_of(serialized), '&');
    let ghost ps = views(parts@);
    let mut ships: Vec<Ship> = Vec::new();
    let mut i: usize = 0;
    while i < parts.len()
        invariant
            i <= parts.len(),
            ps == views(parts@),
            ps == split(serialized@, '&'),
            ship_views(ships@) == decoded_ships(ps.subrange(0, i as int)),
        decreases parts.len() - i,
    {
        assert(ps.subrange(0, i + 1).drop_last() == ps.subrange(0, i as int));
        assert(ps[i as int] == parts@[i as int]@);
        match ship_from_chars(&parts[i]) {
            Ok(s) => {
                let ghost before = ships@;
                ships.push(s);
                assert(ship_views(ships@) =~= ship_views(before).push(ships@.last()@));
            },
            Err(_) => {},
        }
        i += 1;
    }
    assert(ps.subrange(0, parts.len() as int) == ps);
    if ships.len() != parts.len() {
        return Err(ParseError::ElementCount { expected: parts.len(), found: ships.len() });
    }
    Ok(ships)
}

} // verus!
