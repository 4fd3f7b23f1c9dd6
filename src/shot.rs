//! A fired shot and its text encoding.
use vstd::prelude::*;
use crate::location::{Location, location_code, location_decode, location_from_chars};
use crate::text::{ParseError, chars_of, same_chars, split, split_chars, views};

verus! {

/// One shot at a cell, and whether it hit a ship.
#[derive(Clone, Copy, Debug, PartialEq, Eq, Structural)]
pub struct Shot {
    pub location: Location,
    pub hit: bool,
}

/// The encoding of a shot: `location|hit`.
pub open spec fn shot_code(s: Shot) -> Seq<char> {
    location_code(s.location) + "|"@ + if s.hit {
        "true"@
    } else {
        "false"@
    }
}

/// Decoding of a shot: two `|`-separated fields; only `true` and `True`
/// mean a hit.
pub open spec fn shot_decode(s: Seq<char>) -> Result<Shot, ParseError> {
    let parts = split(s, '|');
    if parts.len() != 2 {
        Err(ParseError::FieldCount { expected: 2, found: parts.len() as usize })
    } else {
        match location_decode(parts[0]) {
            Err(e) => Err(e),
            Ok(location) => Ok(
                Shot { location, hit: parts[1] == "true"@ || parts[1] == "True"@ },
            ),
        }
    }
}

impl Shot {
    pub fn to_string(&self) -> (r: String)
        ensures
            r@ == shot_code(*self),
    {
        let mut s = self.location.to_string();
        s.append("|");
        if self.hit {
            s.append("true");
        } else {
            s.append("false");
        }
        s
    }

    pub fn from_str(input: &str) -> (r: Result<Shot, ParseError>)
        ensures
            r == shot_decode(input@),
    {
        let parts = split_chars(&chars_of(input), '|');
        let ghost ps = views(parts@);
        if parts.len() != 2 {
            return Err(ParseError::FieldCount { expected: 2, found: parts.len() });
        }
        assert(ps[0] == parts@[0]@ && ps[1] == parts@[1]@);
        let location = match location_from_chars(&parts[0]) {
            Ok(l) => l,
            Err(e) => {
                return Err(e);
            },
        };
        let hit = same_chars(&parts[1], "true") || same_chars(&parts[1], "True");
        Ok(Shot { location, hit })
    }
}

} // verus!
