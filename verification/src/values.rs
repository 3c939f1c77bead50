//! The primitive value types every payload is built from: decimal-number
//! texts, coordinates, vectors, rotations and colors, each with a symmetric
//! parse/format pair over the separator scheme.
use vstd::prelude::*;
use crate::error::DatabaseError;
use crate::error::parse_failure;
use crate::text::POSITION_SEPARATOR;
use crate::text::VALUE_SEPARATOR;
use crate::text::all_digits;
use crate::text::check_decimal_str;
use crate::text::contains_char;
use crate::text::dec_text;
use crate::text::decimal_text_ok;
use crate::text::format_u64;
use crate::text::is_digit;
use crate::text::join_strings;
use crate::text::join_text;
use crate::text::lemma_dec_text;
use crate::text::lemma_decimal_chars;
use crate::text::lemma_split_join;
use crate::text::parse_u64_str;
use crate::text::parse_u64_text;
use crate::text::split_str;
use crate::text::split_text;
use crate::text::views_of;

verus! {

/// A signed decimal number, carried as its text. Fractional quantities
/// (widths, heights, coordinate components, rotations) keep the exact text
/// they were read or built with, so encoding is the identity on them.
#[derive(Debug, Clone, PartialEq, Eq)]
pub struct Decimal {
    pub text: String,
}

impl View for Decimal {
    type V = Seq<char>;

    open spec fn view(&self) -> Seq<char> {
        self.text@
    }
}

impl Decimal {
    /// Whether the carried text is a well-formed decimal numeral.
    pub open spec fn wf(self) -> bool {
        decimal_text_ok(self.text@)
    }

    /// Accepts `text` as a decimal number; refuses anything else.
    pub fn new(text: String) -> (r: Result<Decimal, DatabaseError>)
        ensures
            match r {
                Ok(d) => decimal_text_ok(text@) && d@ == text@ && d.wf(),
                Err(e) => !decimal_text_ok(text@) && e is EntryCouldNotBeParsed,
            },
    {
        if check_decimal_str(text.as_str()) {
            Ok(Decimal { text })
        } else {
            Err(parse_failure("not a decimal number", text.as_str()))
        }
    }
}

/// No character of a decimal text is a separator of the scheme or any other
/// character outside its own alphabet.
pub proof fn lemma_decimal_free_of(s: Seq<char>, c: char)
    requires
        decimal_text_ok(s),
        !is_digit(c),
        c != '.',
        c != '-',
    ensures
        !contains_char(s, c),
{
    lemma_decimal_chars(s);
}

/// A point in the world's plane, as three decimal components.
#[derive(Debug, Clone, PartialEq, Eq)]
pub struct Coords {
    pub x: Decimal,
    pub y: Decimal,
    pub z: Decimal,
}

/// The mathematical shape of a coordinate triple: its component texts.
#[verifier::ext_equal]
pub struct CoordsV {
    pub x: Seq<char>,
    pub y: Seq<char>,
    pub z: Seq<char>,
}

impl View for Coords {
    type V = CoordsV;

    open spec fn view(&self) -> CoordsV {
        CoordsV { x: self.x@, y: self.y@, z: self.z@ }
    }
}

/// Whether each component is a well-formed decimal numeral.
pub open spec fn coords_wf(c: CoordsV) -> bool {
    decimal_text_ok(c.x) && decimal_text_ok(c.y) && decimal_text_ok(c.z)
}

/// The text of a coordinate triple: the components joined by commas.
pub open spec fn format_coords(c: CoordsV) -> Seq<char> {
    join_text(seq![c.x, c.y, c.z], VALUE_SEPARATOR)
}

/// What a coordinate text decodes to: exactly three comma-separated decimal
/// components, or nothing.
pub open spec fn parse_coords(s: Seq<char>) -> Option<CoordsV> {
    let ps = split_text(s, VALUE_SEPARATOR);
    if ps.len() == 3 && decimal_text_ok(ps[0]) && decimal_text_ok(ps[1]) && decimal_text_ok(
        ps[2],
    ) {
        Some(CoordsV { x: ps[0], y: ps[1], z: ps[2] })
    } else {
        None
    }
}

/// A coordinate text never holds a character outside digits, point, minus and
/// the comma between components.
pub proof fn lemma_coords_text_free_of(c: CoordsV, ch: char)
    requires
        coords_wf(c),
        !is_digit(ch),
        ch != '.',
        ch != '-',
        ch != VALUE_SEPARATOR,
    ensures
        !contains_char(format_coords(c), ch),
{
    lemma_decimal_chars(c.x);
    lemma_decimal_chars(c.y);
    lemma_decimal_chars(c.z);
    let t = format_coords(c);
    assert(seq![c.x, c.y, c.z].drop_first() =~= seq![c.y, c.z]);
    assert(seq![c.y, c.z].drop_first() =~= seq![c.z]);
    assert(join_text(seq![c.z], VALUE_SEPARATOR) == c.z);
    assert(join_text(seq![c.y, c.z], VALUE_SEPARATOR) == c.y + seq![VALUE_SEPARATOR] + c.z);
    assert(t == c.x + seq![VALUE_SEPARATOR] + (c.y + seq![VALUE_SEPARATOR] + c.z));
    assert forall|i: int| 0 <= i < t.len() implies #[trigger] t[i] != ch by {
        let n1 = c.x.len() as int;
        let n2 = n1 + 1 + c.y.len();
        if i < n1 {
            assert(t[i] == c.x[i]);
        } else if i == n1 {
        } else if i < n2 {
            assert(t[i] == c.y[i - n1 - 1]);
        } else if i == n2 {
        } else {
            assert(t[i] == c.z[i - n2 - 1]);
        }
    }
}

/// Parsing a formatted coordinate triple gives the triple back.
pub proof fn lemma_coords_round_trip(c: CoordsV)
    requires
        coords_wf(c),
    ensures
        parse_coords(format_coords(c)) == Some(c),
{
    lemma_decimal_free_of(c.x, VALUE_SEPARATOR);
    lemma_decimal_free_of(c.y, VALUE_SEPARATOR);
    lemma_decimal_free_of(c.z, VALUE_SEPARATOR);
    lemma_split_join(seq![c.x, c.y, c.z], VALUE_SEPARATOR);
    assert(parse_coords(format_coords(c)).unwrap() =~= c);
}

impl Coords {
    pub open spec fn wf(self) -> bool {
        coords_wf(self@)
    }

    /// Encodes the triple as comma-separated component texts.
    pub fn to_string(&self) -> (r: String)
        ensures
            r@ == format_coords(self@),
    {
        let mut parts: Vec<String> = Vec::new();
        parts.push(self.x.text.clone());
        parts.push(self.y.text.clone());
        parts.push(self.z.text.clone());
        proof {
            reveal_strlit(",");
            assert(","@ =~= seq![VALUE_SEPARATOR]);
            assert(views_of(parts@) =~= seq![self.x.text@, self.y.text@, self.z.text@]);
        }
        join_strings(&parts, VALUE_SEPARATOR, ",")
    }

    /// Decodes a comma-separated coordinate triple; all-or-nothing.
    pub fn from_str(s: &str) -> (r: Result<Coords, DatabaseError>)
        ensures
            match r {
                Ok(c) => parse_coords(s@) == Some(c@) && c.wf(),
                Err(e) => parse_coords(s@) is None && e is EntryCouldNotBeParsed,
            },
    {
        let parts = split_str(s, VALUE_SEPARATOR);
        if parts.len() != 3 {
            return Err(parse_failure("coordinates do not have exactly 3 components", s));
        }
        if !check_decimal_str(parts[0].as_str()) || !check_decimal_str(parts[1].as_str())
            || !check_decimal_str(parts[2].as_str()) {
            return Err(parse_failure("a coordinate component is not a decimal number", s));
        }
        let c = Coords {
            x: Decimal { text: parts[0].clone() },
            y: Decimal { text: parts[1].clone() },
            z: Decimal { text: parts[2].clone() },
        };
        proof {
            assert(parse_coords(s@).unwrap() =~= c@);
        }
        Ok(c)
    }
}

/// A direction in space, as three decimal components. It is carried inside a
/// player payload as a colon-separated triple.
#[derive(Debug, Clone, PartialEq, Eq)]
pub struct Vector {
    pub x: Decimal,
    pub y: Decimal,
    pub z: Decimal,
}

impl View for Vector {
    type V = CoordsV;

    open spec fn view(&self) -> CoordsV {
        CoordsV { x: self.x@, y: self.y@, z: self.z@ }
    }
}

/// The text of a position triple: the components joined by colons.
pub open spec fn format_vector(c: CoordsV) -> Seq<char> {
    join_text(seq![c.x, c.y, c.z], POSITION_SEPARATOR)
}

/// What a position text decodes to: exactly three colon-separated decimal
/// components, or nothing.
pub open spec fn parse_vector(s: Seq<char>) -> Option<CoordsV> {
    let ps = split_text(s, POSITION_SEPARATOR);
    if ps.len() == 3 && decimal_text_ok(ps[0]) && decimal_text_ok(ps[1]) && decimal_text_ok(
        ps[2],
    ) {
        Some(CoordsV { x: ps[0], y: ps[1], z: ps[2] })
    } else {
        None
    }
}

/// Parsing a formatted position triple gives the triple back.
pub proof fn lemma_vector_round_trip(c: CoordsV)
    requires
        coords_wf(c),
    ensures
        parse_vector(format_vector(c)) == Some(c),
{
    lemma_decimal_free_of(c.x, POSITION_SEPARATOR);
    lemma_decimal_free_of(c.y, POSITION_SEPARATOR);
    lemma_decimal_free_of(c.z, POSITION_SEPARATOR);
    lemma_split_join(seq![c.x, c.y, c.z], POSITION_SEPARATOR);
    assert(parse_vector(format_vector(c)).unwrap() =~= c);
}

impl Vector {
    pub open spec fn wf(self) -> bool {
        coords_wf(self@)
    }

    /// Encodes the triple as colon-separated component texts.
    pub fn to_position_string(&self) -> (r: String)
        ensures
            r@ == format_vector(self@),
    {
        let mut parts: Vec<String> = Vec::new();
        parts.push(self.x.text.clone());
        parts.push(self.y.text.clone());
        parts.push(self.z.text.clone());
        proof {
            reveal_strlit(":");
            assert(":"@ =~= seq![POSITION_SEPARATOR]);
            assert(views_of(parts@) =~= seq![self.x.text@, self.y.text@, self.z.text@]);
        }
        join_strings(&parts, POSITION_SEPARATOR, ":")
    }

    /// Decodes a colon-separated position triple; all-or-nothing.
    pub fn from_position_str(s: &str) -> (r: Result<Vector, DatabaseError>)
        ensures
            match r {
                Ok(c) => parse_vector(s@) == Some(c@) && c.wf(),
                Err(e) => parse_vector(s@) is None && e is EntryCouldNotBeParsed,
            },
    {
        let parts = split_str(s, POSITION_SEPARATOR);
        if parts.len() != 3 {
            return Err(parse_failure("a position does not have exactly 3 components", s));
        }
        if !check_decimal_str(parts[0].as_str()) || !check_decimal_str(parts[1].as_str())
            || !check_decimal_str(parts[2].as_str()) {
            return Err(parse_failure("a position component is not a decimal number", s));
        }
        let c = Vector {
            x: Decimal { text: parts[0].clone() },
            y: Decimal { text: parts[1].clone() },
            z: Decimal { text: parts[2].clone() },
        };
        proof {
            assert(parse_vector(s@).unwrap() =~= c@);
        }
        Ok(c)
    }
}

/// An angle in radians, as its decimal text.
#[derive(Debug, Clone, PartialEq, Eq)]
pub struct Rotation {
    pub rad: Decimal,
}

impl View for Rotation {
    type V = Seq<char>;

    open spec fn view(&self) -> Seq<char> {
        self.rad@
    }
}

impl Rotation {
    pub open spec fn wf(self) -> bool {
        self.rad.wf()
    }
}

/// A color with four channels of eight bits each. Its text form is the four
/// channel values, base ten, joined by commas.
#[derive(Debug, Clone, Copy, PartialEq, Eq, Structural)]
pub struct Rgba {
    pub r: u8,
    pub g: u8,
    pub b: u8,
    pub a: u8,
}

/// The text of a color: its four channel values joined by commas.
pub open spec fn format_rgba(c: Rgba) -> Seq<char> {
    join_text(
        seq![
            dec_text(c.r as nat),
            dec_text(c.g as nat),
            dec_text(c.b as nat),
            dec_text(c.a as nat),
        ],
        VALUE_SEPARATOR,
    )
}

/// What a color text decodes to: exactly four comma-separated channel
/// numerals of at most 255, or nothing.
pub open spec fn parse_rgba(s: Seq<char>) -> Option<Rgba> {
    let ps = split_text(s, VALUE_SEPARATOR);
    if ps.len() == 4 && (forall|k: int|
        0 <= k < 4 ==> parse_u64_text(#[trigger] ps[k]) is Some && parse_u64_text(
            ps[k],
        ).unwrap() <= 255) {
        Some(
            Rgba {
                r: parse_u64_text(ps[0]).unwrap() as u8,
                g: parse_u64_text(ps[1]).unwrap() as u8,
                b: parse_u64_text(ps[2]).unwrap() as u8,
                a: parse_u64_text(ps[3]).unwrap() as u8,
            },
        )
    } else {
        None
    }
}

/// Parsing a formatted color gives the color back.
pub proof fn lemma_rgba_round_trip(c: Rgba)
    ensures
        parse_rgba(format_rgba(c)) == Some(c),
{
    let ps = seq![
        dec_text(c.r as nat),
        dec_text(c.g as nat),
        dec_text(c.b as nat),
        dec_text(c.a as nat),
    ];
    lemma_dec_text(c.r as nat);
    lemma_dec_text(c.g as nat);
    lemma_dec_text(c.b as nat);
    lemma_dec_text(c.a as nat);
    assert forall|k: int| 0 <= k < 4 implies !contains_char(#[trigger] ps[k], VALUE_SEPARATOR) by {
        assert(all_digits(ps[k]));
    }
    lemma_split_join(ps, VALUE_SEPARATOR);
    assert(parse_rgba(format_rgba(c)).unwrap() == c);
}

impl Rgba {
    /// Encodes the four channels as comma-separated numerals.
    pub fn to_string(&self) -> (r: String)
        ensures
            r@ == format_rgba(*self),
    {
        let mut parts: Vec<String> = Vec::new();
        parts.push(format_u64(self.r as u64));
        parts.push(format_u64(self.g as u64));
        parts.push(format_u64(self.b as u64));
        parts.push(format_u64(self.a as u64));
        proof {
            reveal_strlit(",");
            assert(","@ =~= seq![VALUE_SEPARATOR]);
            assert(views_of(parts@) =~= seq![
                dec_text(self.r as nat),
                dec_text(self.g as nat),
                dec_text(self.b as nat),
                dec_text(self.a as nat),
            ]);
        }
        join_strings(&parts, VALUE_SEPARATOR, ",")
    }

    /// Decodes a comma-separated color; all-or-nothing.
    pub fn from_str(s: &str) -> (r: Result<Rgba, DatabaseError>)
        ensures
            match r {
                Ok(c) => parse_rgba(s@) == Some(c),
                Err(e) => parse_rgba(s@) is None && e is EntryCouldNotBeParsed,
            },
    {
        let parts = split_str(s, VALUE_SEPARATOR);
        if parts.len() != 4 {
            return Err(parse_failure("a color does not have exactly 4 channels", s));
        }
        let mut vals: Vec<u8> = Vec::new();
        let mut k: usize = 0;
        while k < 4
            invariant
                vals@.len() == k <= 4,
                parts@.len() == 4,
                views_of(parts@) == split_text(s@, VALUE_SEPARATOR),
                forall|j: int|
                    0 <= j < k ==> parse_u64_text(#[trigger] views_of(parts@)[j]) is Some
                        && parse_u64_text(views_of(parts@)[j]).unwrap() <= 255 && vals@[j]
                        == parse_u64_text(views_of(parts@)[j]).unwrap(),
            decreases 4 - k,
        {
            let v = match parse_u64_str(parts[k].as_str()) {
                Some(v) => v,
                None => {
                    return Err(parse_failure("a color channel is not a number", s));
                },
            };
            if v > 255 {
                return Err(parse_failure("a color channel is above 255", s));
            }
            vals.push(v as u8);
            k += 1;
        }
        let c = Rgba { r: vals[0], g: vals[1], b: vals[2], a: vals[3] };
        proof {
            assert(parse_rgba(s@).unwrap() == c);
        }
        Ok(c)
    }
}

} // verus!
