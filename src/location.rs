//! Grid coordinates and their text encoding.
use vstd::prelude::*;
use crate::text::{
    ParseError, chars_of, decimal, decimal_text, join, parse_u32, parse_u32_spec, split,
    split_chars, views,
};

verus! {

/// A cell of the grid; `row` and `col` are checked against the grid by the
/// operations that take one, not by the type.
#[derive(Clone, Copy, Debug, PartialEq, Eq, Structural)]
pub struct Location {
    pub row: u32,
    pub col: u32,
}

/// How a location is shown in messages: `(col, row)`.
pub open spec fn location_display(l: Location) -> Seq<char> {
    "("@ + decimal(l.col as nat) + ", "@ + decimal(l.row as nat) + ")"@
}

impl Location {
    pub fn display(&self) -> (r: String)
        ensures
            r@ == location_display(*self),
    {
        let mut s = String::from_str("(");
        s.append(decimal_text(self.col).as_str());
        s.append(", ");
        s.append(decimal_text(self.row).as_str());
        s.append(")");
        s
    }
}

/// The encoding of a location: column first, `col,row`.
pub open spec fn location_code(l: Location) -> Seq<char> {
    decimal(l.col as nat) + ","@ + decimal(l.row as nat)
}

/// Decoding of a location: exactly two comma-separated pieces, each an
/// unsigned number, the column and then the row.
pub open spec fn location_decode(s: Seq<char>) -> Result<Location, ParseError> {
    let parts = split(s, ',');
    if parts.len() != 2 {
        Err(ParseError::FieldCount { expected: 2, found: parts.len() as usize })
    } else {
        match (parse_u32_spec(parts[0]), parse_u32_spec(parts[1])) {
            (Some(col), Some(row)) => Ok(Location { row, col }),
            _ => Err(ParseError::InvalidNumber),
        }
    }
}

/// The locations among `parts` that decode, in order.
pub open spec fn decoded_locations(parts: Seq<Seq<char>>) -> Seq<Location>
    decreases parts.len(),
{
    if parts.len() == 0 {
        Seq::empty()
    } else {
        let init = decoded_locations(parts.drop_last());
        match location_decode(parts.last()) {
            Ok(l) => init.push(l),
            Err(_) => init,
        }
    }
}

/// Decoding of `;`-separated locations: every piece must decode.
pub open spec fn locations_decode(s: Seq<char>) -> Result<Seq<Location>, ParseError> {
    let parts = split(s, ';');
    let locs = decoded_locations(parts);
    if locs.len() == parts.len() {
        Ok(locs)
    } else {
        Err(ParseError::ElementCount { expected: parts.len() as usize, found: locs.len() as usize })
    }
}

pub open spec fn location_codes(v: Seq<Location>) -> Seq<Seq<char>> {
    v.map_values(|l: Location| location_code(l))
}

pub open spec fn locations_code(v: Seq<Location>) -> Seq<char> {
    join(location_codes(v), ";"@)
}

impl Location {
    /// The encoding `col,row`.
    pub fn to_string(&self) -> (r: String)
        ensures
            r@ == location_code(*self),
    {
        let mut s = decimal_text(self.col);
        s.append(",");
        s.append(decimal_text(self.row).as_str());
        s
    }

    pub fn from_str(input: &str) -> (r: Result<Location, ParseError>)
        ensures
            r == location_decode(input@),
    {
        location_from_chars(&chars_of(input))
    }
}

pub fn location_from_chars(input: &Vec<char>) -> (r: Result<Location, ParseError>)
    ensures
        r == location_decode(input@),
{
    let parts = split_chars(input, ',');
    let ghost ps = views(parts@);
    if parts.len() != 2 {
        return Err(ParseError::FieldCount { expected: 2, found: parts.len() });
    }
    assert(ps[0] == parts@[0]@ && ps[1] == parts@[1]@);
    match (parse_u32(&parts[0]), parse_u32(&parts[1])) {
        (Some(col), Some(row)) => Ok(Location { row, col }),
        _ => Err(ParseError::InvalidNumber),
    }
}

/// The locations joined by `;`.
pub fn locations_to_string(locations: &Vec<Location>) -> (r: String)
    ensures
        r@ == locations_code(locations@),
{
    let ghost codes = location_codes(locations@);
    let mut s = String::new();
    let mut i: usize = 0;
    while i < locations.len()
        invariant
            i <= locations.len(),
            codes == location_codes(locations@),
            s@ == join(codes.subrange(0, i as int), ";"@),
        decreases locations.len() - i,
    {
        let ghost pre = codes.subrange(0, i as int);
        let ghost next = codes.subrange(0, i + 1);
        assert(next.drop_last() == pre);
        if i > 0 {
            s.append(";");
        }
        s.append(locations[i].to_string().as_str());
        assert(s@ == join(next, ";"@)) by {
            if i == 0 {
                assert(s@ =~= next[0]);
            }
        }
        i += 1;
    }
    assert(codes.subrange(0, locations.len() as int) == codes);
    s
}

/// Decodes `;`-separated locations; every piece must decode.
pub fn locations_from_string(serialized: &str) -> (r: Result<Vec<Location>, ParseError>)
    ensures
        match r {
            Ok(v) => locations_decode(serialized@) == Ok::<Seq<Location>, ParseError>(v@),
            Err(e) => locations_decode(serialized@) == Err::<Seq<Location>, ParseError>(e),
        },
{
    locations_from_chars(&chars_of(serialized))
}

pub fn locations_from_chars(input: &Vec<char>) -> (r: Result<Vec<Location>, ParseError>)
    ensures
        match r {
            Ok(v) => locations_decode(input@) == Ok::<Seq<Location>, ParseError>(v@),
            Err(e) => locations_decode(input@) == Err::<Seq<Location>, ParseError>(e),
        },
{
    let parts = split_chars(input, ';');
    let ghost ps = views(parts@);
    let mut locs: Vec<Location> = Vec::new();
    let mut i: usize = 0;
    while i < parts.len()
        invariant
            i <= parts.len(),
            ps == views(parts@),
            locs@ == decoded_locations(ps.subrange(0, i as int)),
        decreases parts.len() - i,
    {
        assert(ps.subrange(0, i + 1).drop_last() == ps.subrange(0, i as int));
        assert(ps[i as int] == parts@[i as int]@);
        match location_from_chars(&parts[i]) {
            Ok(l) => locs.push(l),
            Err(_) => {},
        }
        i += 1;
    }
    assert(ps.subrange(0, parts.len() as int) == ps);
    if locs.len() != parts.len() {
        return Err(ParseError::ElementCount { expected: parts.len(), found: locs.len() });
    }
    Ok(locs)
}

} // verus!
