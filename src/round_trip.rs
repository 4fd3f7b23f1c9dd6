//! Decoding what the encoders produce gives back the encoded value.
use vstd::prelude::*;
use crate::location::{
    Location, decoded_locations, location_code, location_codes, location_decode, locations_code,
    locations_decode,
};
use crate::ship::{
    ShipType, ShipView, class_decode, class_name, class_size, decoded_ships, ship_code, ship_decode,
    ships_code, ships_decode,
};
use crate::shot::{Shot, shot_code, shot_decode};
use crate::text::{
    ParseError, all_digits, decimal, digit_char, digit_value, digits_value, is_digit, join,
    parse_u32_spec, split, unsigned_digits,
};

verus! {

proof fn lemma_digit_char(d: nat)
    requires
        d < 10,
    ensures
        is_digit(digit_char(d)),
        digit_value(digit_char(d)) == d,
{
}

proof fn lemma_decimal_digits(n: nat)
    ensures
        decimal(n).len() > 0,
        all_digits(decimal(n)),
        digits_value(decimal(n)) == n,
    decreases n,
{
    if n < 10 {
        lemma_digit_char(n);
        let s = decimal(n);
        assert(s.drop_last() == Seq::<char>::empty());
        assert(s.last() == digit_char(n));
        assert(digits_value(s) == digits_value(s.drop_last()) * 10 + digit_value(s.last()));
    } else {
        lemma_decimal_digits(n / 10);
        lemma_digit_char(n % 10);
        let s = decimal(n);
        assert(s.drop_last() == decimal(n / 10));
        assert(n == (n / 10) * 10 + n % 10) by (nonlinear_arith);
        assert(s.last() == digit_char(n % 10));
        assert(digits_value(s) == digits_value(s.drop_last()) * 10 + digit_value(s.last()));
        assert(digits_value(s) == (n / 10) * 10 + n % 10);
        assert forall|i: int| 0 <= i < s.len() implies is_digit(#[trigger] s[i]) by {
            if i < s.len() - 1 {
                assert(s[i] == decimal(n / 10)[i]);
            }
        }
    }
}

/// The decimal text of a 32-bit number parses back to it.
pub proof fn lemma_parse_decimal(n: u32)
    ensures
        parse_u32_spec(decimal(n as nat)) == Some(n),
{
    lemma_decimal_digits(n as nat);
    let s = decimal(n as nat);
    assert(is_digit(s[0]));
    assert(unsigned_digits(s) == s);
}

/// Text without the separator is one piece.
proof fn lemma_split_whole(s: Seq<char>, sep: char)
    requires
        !s.contains(sep),
    ensures
        split(s, sep) == seq![s],
    decreases s.len(),
{
    if s.len() > 0 {
        assert(!s.drop_last().contains(sep)) by {
            if s.drop_last().contains(sep) {
                let w = choose|w: int| 0 <= w < s.drop_last().len() && s.drop_last()[w] == sep;
                assert(s[w] == sep);
            }
        }
        lemma_split_whole(s.drop_last(), sep);
        assert(s.drop_last().push(s.last()) == s);
        assert(s.last() != sep) by {
            assert(s[s.len() - 1] == s.last());
        }
    } else {
        assert(s == Seq::<char>::empty());
    }
}

/// A separator followed by text without one adds that text as a last piece.
pub proof fn lemma_split_append(a: Seq<char>, b: Seq<char>, sep: char)
    requires
        !b.contains(sep),
    ensures
        split(a + seq![sep] + b, sep) == split(a, sep).push(b),
    decreases b.len(),
{
    let s = a + seq![sep] + b;
    if b.len() == 0 {
        assert(s.drop_last() == a);
        assert(b == Seq::<char>::empty());
    } else {
        assert(!b.drop_last().contains(sep)) by {
            if b.drop_last().contains(sep) {
                let w = choose|w: int| 0 <= w < b.drop_last().len() && b.drop_last()[w] == sep;
                assert(b[w] == sep);
            }
        }
        lemma_split_append(a, b.drop_last(), sep);
        assert(s.drop_last() == a + seq![sep] + b.drop_last());
        assert(s.last() == b.last());
        assert(b.last() != sep) by {
            assert(b[b.len() - 1] == b.last());
        }
        assert(b.drop_last().push(b.last()) == b);
        let init = split(a, sep).push(b.drop_last());
        assert(init.update(init.len() - 1, init.last().push(b.last())) == split(a, sep).push(b));
    }
}

proof fn lemma_decimal_has_no(n: nat, c: char)
    requires
        !is_digit(c),
    ensures
        !decimal(n).contains(c),
{
    lemma_decimal_digits(n);
    if decimal(n).contains(c) {
        let w = choose|w: int| 0 <= w < decimal(n).len() && decimal(n)[w] == c;
        assert(is_digit(decimal(n)[w]));
    }
}

/// Decoding a location's encoding gives the location back.
pub proof fn lemma_location_round_trip(l: Location)
    ensures
        location_decode(location_code(l)) == Ok::<Location, ParseError>(l),
{
    reveal_strlit(",");
    let c = decimal(l.col as nat);
    let r = decimal(l.row as nat);
    assert(location_code(l) == c + seq![','] + r);
    lemma_decimal_has_no(l.col as nat, ',');
    lemma_decimal_has_no(l.row as nat, ',');
    lemma_split_whole(c, ',');
    lemma_split_append(c, r, ',');
    let parts = split(location_code(l), ',');
    assert(parts == seq![c, r]);
    lemma_parse_decimal(l.col);
    lemma_parse_decimal(l.row);
}

proof fn lemma_location_code_has_no(l: Location, ch: char)
    requires
        !is_digit(ch),
        ch != ',',
    ensures
        !location_code(l).contains(ch),
{
    reveal_strlit(",");
    let c = decimal(l.col as nat);
    let r = decimal(l.row as nat);
    let s = location_code(l);
    assert(s == c + seq![','] + r);
    lemma_decimal_has_no(l.col as nat, ch);
    lemma_decimal_has_no(l.row as nat, ch);
    if s.contains(ch) {
        let w = choose|w: int| 0 <= w < s.len() && s[w] == ch;
        if w < c.len() {
            assert(c[w] == ch);
        } else if w > c.len() {
            assert(r[w - c.len() - 1] == ch);
        }
    }
}

/// Pieces without the separator, joined by it, split back into the same pieces.
pub proof fn lemma_split_join(parts: Seq<Seq<char>>, sep: char)
    requires
        parts.len() > 0,
        forall|i: int| 0 <= i < parts.len() ==> !(#[trigger] parts[i]).contains(sep),
    ensures
        split(join(parts, seq![sep]), sep) == parts,
    decreases parts.len(),
{
    if parts.len() == 1 {
        lemma_split_whole(parts[0], sep);
        assert(parts == seq![parts[0]]);
    } else {
        let init = parts.drop_last();
        assert forall|i: int| 0 <= i < init.len() implies !(#[trigger] init[i]).contains(sep) by {
            assert(init[i] == parts[i]);
        }
        lemma_split_join(init, sep);
        assert(!parts[parts.len() - 1].contains(sep));
        lemma_split_append(join(init, seq![sep]), parts.last(), sep);
        assert(init.push(parts.last()) == parts);
    }
}

proof fn lemma_join_has_no(parts: Seq<Seq<char>>, sep: Seq<char>, ch: char)
    requires
        !sep.contains(ch),
        forall|i: int| 0 <= i < parts.len() ==> !(#[trigger] parts[i]).contains(ch),
    ensures
        !join(parts, sep).contains(ch),
    decreases parts.len(),
{
    if parts.len() == 1 {
        assert(!parts[0].contains(ch));
    } else if parts.len() > 1 {
        let init = parts.drop_last();
        assert forall|i: int| 0 <= i < init.len() implies !(#[trigger] init[i]).contains(ch) by {
            assert(init[i] == parts[i]);
        }
        lemma_join_has_no(init, sep, ch);
        let a = join(init, sep);
        let b = parts.last();
        assert(!parts[parts.len() - 1].contains(ch));
        let s = a + sep + b;
        if s.contains(ch) {
            let w = choose|w: int| 0 <= w < s.len() && s[w] == ch;
            if w < a.len() {
                assert(a[w] == ch);
            } else if w < a.len() + sep.len() {
                assert(sep[w - a.len()] == ch);
            } else {
                assert(b[w - a.len() - sep.len()] == ch);
            }
        }
    }
}

proof fn lemma_locations_code_has_no(v: Seq<Location>, ch: char)
    requires
        !is_digit(ch),
        ch != ',',
        ch != ';',
    ensures
        !locations_code(v).contains(ch),
{
    reveal_strlit(";");
    let codes = location_codes(v);
    assert forall|i: int| 0 <= i < codes.len() implies !(#[trigger] codes[i]).contains(ch) by {
        lemma_location_code_has_no(v[i], ch);
    }
    lemma_join_has_no(codes, ";"@, ch);
}

proof fn lemma_decoded_locations(v: Seq<Location>)
    ensures
        decoded_locations(location_codes(v)) == v,
    decreases v.len(),
{
    if v.len() > 0 {
        assert(location_codes(v).drop_last() == location_codes(v.drop_last()));
        lemma_decoded_locations(v.drop_last());
        lemma_location_round_trip(v.last());
        assert(v.drop_last().push(v.last()) == v);
    }
}

/// Decoding the encoding of one or more locations gives them back. (No
/// locations encode to the empty text, which decodes to an error.)
pub proof fn lemma_locations_round_trip(v: Seq<Location>)
    requires
        v.len() > 0,
    ensures
        locations_decode(locations_code(v)) == Ok::<Seq<Location>, ParseError>(v),
{
    reveal_strlit(";");
    let codes = location_codes(v);
    assert forall|i: int| 0 <= i < codes.len() implies !(#[trigger] codes[i]).contains(';') by {
        lemma_location_code_has_no(v[i], ';');
    }
    assert(";"@ == seq![';']);
    lemma_split_join(codes, ';');
    lemma_decoded_locations(v);
    assert(split(locations_code(v), ';') == codes);
}

proof fn lemma_class_name(c: ShipType)
    ensures
        class_decode(class_name(c)) == Some(c),
        !class_name(c).contains('|'),
        !class_name(c).contains('&'),
{
    reveal_strlit("Carrier");
    reveal_strlit("Battleship");
    reveal_strlit("Cruiser");
    reveal_strlit("Submarine");
    reveal_strlit("Destroyer");
    let car = "Carrier"@;
    let bat = "Battleship"@;
    let cru = "Cruiser"@;
    let sub = "Submarine"@;
    let des = "Destroyer"@;
    assert(bat.len() != car.len());
    assert(cru[1] != car[1]);
    assert(cru.len() != bat.len());
    assert(sub.len() != car.len() && sub.len() != bat.len() && sub.len() != cru.len());
    assert(des.len() != car.len() && des.len() != bat.len() && des.len() != cru.len());
    assert(des[0] != sub[0]);
}

proof fn lemma_ship_code_has_no_amp(s: ShipView)
    ensures
        !ship_code(s).contains('&'),
{
    reveal_strlit("|");
    lemma_class_name(s.class);
    lemma_decimal_has_no(s.hits as nat, '&');
    lemma_locations_code_has_no(s.locations, '&');
    let a = class_name(s.class);
    let b = decimal(s.hits as nat);
    let c = locations_code(s.locations);
    let t = ship_code(s);
    assert(t == a + seq!['|'] + b + seq!['|'] + c);
    if t.contains('&') {
        let w = choose|w: int| 0 <= w < t.len() && t[w] == '&';
        if w < a.len() {
            assert(a[w] == '&');
        } else if w > a.len() && w < a.len() + 1 + b.len() {
            assert(b[w - a.len() - 1] == '&');
        } else if w > a.len() + 1 + b.len() {
            assert(c[w - a.len() - 2 - b.len()] == '&');
        }
    }
}

/// Decoding the encoding of a placed ship gives the ship back. (An unplaced
/// ship has no locations, and its encoding does not decode.)
pub proof fn lemma_ship_round_trip(s: ShipView)
    requires
        s.locations.len() == class_size(s.class),
    ensures
        ship_decode(ship_code(s)) == Ok::<ShipView, ParseError>(s),
{
    reveal_strlit("|");
    lemma_class_name(s.class);
    let a = class_name(s.class);
    let b = decimal(s.hits as nat);
    let c = locations_code(s.locations);
    assert(ship_code(s) == a + seq!['|'] + b + seq!['|'] + c);
    lemma_decimal_has_no(s.hits as nat, '|');
    lemma_locations_code_has_no(s.locations, '|');
    lemma_split_whole(a, '|');
    lemma_split_append(a, b, '|');
    lemma_split_append(a + seq!['|'] + b, c, '|');
    let parts = split(ship_code(s), '|');
    assert(parts == seq![a, b, c]);
    lemma_parse_decimal(s.hits);
    lemma_locations_round_trip(s.locations);
}

proof fn lemma_decoded_ships(v: Seq<ShipView>)
    requires
        forall|i: int| 0 <= i < v.len() ==> (#[trigger] v[i]).locations.len() == class_size(v[i].class),
    ensures
        decoded_ships(v.map_values(|s: ShipView| ship_code(s))) == v,
    decreases v.len(),
{
    if v.len() > 0 {
        let codes = v.map_values(|s: ShipView| ship_code(s));
        assert(codes.drop_last() == v.drop_last().map_values(|s: ShipView| ship_code(s)));
        lemma_decoded_ships(v.drop_last());
        assert(v[v.len() - 1] == v.last());
        lemma_ship_round_trip(v.last());
        assert(v.drop_last().push(v.last()) == v);
    }
}

/// Decoding the encoding of one or more placed ships gives them back.
pub proof fn lemma_ships_round_trip(v: Seq<ShipView>)
    requires
        v.len() > 0,
        forall|i: int| 0 <= i < v.len() ==> (#[trigger] v[i]).locations.len() == class_size(v[i].class),
    ensures
        ships_decode(ships_code(v)) == Ok::<Seq<ShipView>, ParseError>(v),
{
    reveal_strlit("&");
    let codes = v.map_values(|s: ShipView| ship_code(s));
    assert forall|i: int| 0 <= i < codes.len() implies !(#[trigger] codes[i]).contains('&') by {
        lemma_ship_code_has_no_amp(v[i]);
    }
    assert("&"@ == seq!['&']);
    lemma_split_join(codes, '&');
    lemma_decoded_ships(v);
    assert(split(ships_code(v), '&') == codes);
}

/// Decoding a shot's encoding gives the shot back.
pub proof fn lemma_shot_round_trip(s: Shot)
    ensures
        shot_decode(shot_code(s)) == Ok::<Shot, ParseError>(s),
{
    reveal_strlit("|");
    reveal_strlit("true");
    reveal_strlit("True");
    reveal_strlit("false");
    let a = location_code(s.location);
    let b = if s.hit { "true"@ } else { "false"@ };
    assert(shot_code(s) == a + seq!['|'] + b);
    lemma_location_code_has_no(s.location, '|');
    lemma_split_whole(a, '|');
    lemma_split_append(a, b, '|');
    assert(split(shot_code(s), '|') == seq![a, b]);
    lemma_location_round_trip(s.location);
}

} // verus!
