//! The player codec: username, colon-joined position triple, direction,
//! style, optional lobby reference and interacted-object list, six fields
//! joined by the player separator.
use vstd::prelude::*;
use crate::error::DatabaseError;
use crate::error::parse_failure;
use crate::text::OBJECT_PLAYER_INTERACTED_WITH_SEPARATOR;
use crate::text::PLAYER_SEPARATOR;
use crate::text::check_decimal_str;
use crate::text::contains_char;
use crate::text::dec_text;
use crate::text::decimal_text_ok;
use crate::text::format_u64;
use crate::text::is_digit;
use crate::text::join_text;
use crate::text::join_strings;
use crate::text::lemma_dec_text;
use crate::text::lemma_join_free_of;
use crate::text::lemma_split_join;
use crate::text::parse_u64_str;
use crate::text::parse_u64_text;
use crate::text::split_str;
use crate::text::split_text;
use crate::text::views_of;
use crate::values::CoordsV;
use crate::values::Decimal;
use crate::values::Rgba;
use crate::values::Rotation;
use crate::values::Vector;
use crate::values::coords_wf;
use crate::values::format_rgba;
use crate::values::format_vector;
use crate::values::lemma_decimal_free_of;
use crate::values::lemma_rgba_round_trip;
use crate::values::lemma_vector_round_trip;
use crate::values::parse_rgba;
use crate::values::parse_vector;
use crate::models::moodle_object_model::MoodleObjectModel;
use crate::models::moodle_object_model::MoodleObjectV;
use crate::models::moodle_object_model::format_object;
use crate::models::moodle_object_model::format_object_list;
use crate::models::moodle_object_model::lemma_object_list_round_trip;
use crate::models::moodle_object_model::lemma_object_text_free_of;
use crate::models::moodle_object_model::object_list_string;
use crate::models::moodle_object_model::object_wf;
use crate::models::moodle_object_model::objects_view;
use crate::models::moodle_object_model::parse_object_list;
use crate::models::moodle_object_model::parse_object_list_str;

verus! {

/// How a player looks: a single color.
#[derive(Debug, Clone, Copy, PartialEq, Eq, Structural)]
pub struct PlayerStyle {
    pub color: Rgba,
}

impl View for PlayerStyle {
    type V = Rgba;

    open spec fn view(&self) -> Rgba {
        self.color
    }
}

impl PlayerStyle {
    /// Encodes the style: exactly its color's text.
    pub fn to_string(&self) -> (r: String)
        ensures
            r@ == format_rgba(self.color),
    {
        self.color.to_string()
    }

    /// Decodes a style: exactly a color text.
    pub fn from_str(s: &str) -> (r: Result<PlayerStyle, DatabaseError>)
        ensures
            match r {
                Ok(st) => parse_rgba(s@) == Some(st.color),
                Err(e) => parse_rgba(s@) is None && e is EntryCouldNotBeParsed,
            },
    {
        match Rgba::from_str(s) {
            Ok(color) => Ok(PlayerStyle { color }),
            Err(e) => Err(e),
        }
    }
}

/// A player: where it stands and looks, how it looks, who it is, which lobby
/// it is in (if any), and what it has interacted with.
#[derive(Debug, Clone, PartialEq, Eq)]
pub struct PlayerModel {
    pub position: Vector,
    pub direction: Rotation,
    pub style: PlayerStyle,
    pub username: String,
    pub lobby_id: Option<u64>,
    pub objects_interacted_with: Vec<MoodleObjectModel>,
}

/// The mathematical shape of a player.
#[verifier::ext_equal]
pub struct PlayerV {
    pub position: CoordsV,
    pub direction: Seq<char>,
    pub color: Rgba,
    pub username: Seq<char>,
    pub lobby_id: Option<u64>,
    pub objects: Seq<MoodleObjectV>,
}

impl View for PlayerModel {
    type V = PlayerV;

    open spec fn view(&self) -> PlayerV {
        PlayerV {
            position: self.position@,
            direction: self.direction@,
            color: self.style.color,
            username: self.username@,
            lobby_id: self.lobby_id,
            objects: objects_view(self.objects_interacted_with@),
        }
    }
}

/// The text of an optional lobby reference: the id's numeral, or nothing.
pub open spec fn opt_id_text(o: Option<u64>) -> Seq<char> {
    match o {
        None => seq![],
        Some(id) => dec_text(id as nat),
    }
}

/// The text of a player: its six fields joined by the player separator.
pub open spec fn format_player(p: PlayerV) -> Seq<char> {
    join_text(
        seq![
            p.username,
            format_vector(p.position),
            p.direction,
            format_rgba(p.color),
            opt_id_text(p.lobby_id),
            format_object_list(p.objects, OBJECT_PLAYER_INTERACTED_WITH_SEPARATOR),
        ],
        PLAYER_SEPARATOR,
    )
}

/// What a player text decodes to: exactly six fields; the position a
/// colon-joined decimal triple; the direction a decimal; the style a color;
/// the lobby field read as a numeral where it is one and silently taken as
/// absent otherwise; and an all-or-nothing object list with empty segments
/// skipped.
pub open spec fn parse_player(s: Seq<char>) -> Option<PlayerV> {
    let f = split_text(s, PLAYER_SEPARATOR);
    if f.len() != 6 {
        None
    } else {
        match parse_vector(f[1]) {
            None => None,
            Some(pos) => if !decimal_text_ok(f[2]) {
                None
            } else {
                match parse_rgba(f[3]) {
                    None => None,
                    Some(color) => match parse_object_list(
                        split_text(f[5], OBJECT_PLAYER_INTERACTED_WITH_SEPARATOR),
                    ) {
                        None => None,
                        Some(os) => Some(
                            PlayerV {
                                position: pos,
                                direction: f[2],
                                color,
                                username: f[0],
                                lobby_id: parse_u64_text(f[4]),
                                objects: os,
                            },
                        ),
                    },
                }
            },
        }
    }
}

/// Whether a player's string fields can be carried by the codec: position
/// and direction are decimal texts, the username is free of the player
/// separator, and every object is well-formed with a link free of the
/// player and list separators.
pub open spec fn player_carryable(p: PlayerV) -> bool {
    coords_wf(p.position) && decimal_text_ok(p.direction) && !contains_char(
        p.username,
        PLAYER_SEPARATOR,
    ) && forall|k: int|
        0 <= k < p.objects.len() ==> object_wf(#[trigger] p.objects[k]) && !contains_char(
            p.objects[k].link,
            OBJECT_PLAYER_INTERACTED_WITH_SEPARATOR,
        ) && !contains_char(p.objects[k].link, PLAYER_SEPARATOR)
}

/// Decoding an encoded player gives the player back, for every carryable
/// player; in particular an absent lobby reference stays absent.
pub proof fn lemma_player_round_trip(p: PlayerV)
    requires
        player_carryable(p),
    ensures
        parse_player(format_player(p)) == Some(p),
{
    let vt = format_vector(p.position);
    let ct = format_rgba(p.color);
    let lt = opt_id_text(p.lobby_id);
    let ol = format_object_list(p.objects, OBJECT_PLAYER_INTERACTED_WITH_SEPARATOR);
    let fields = seq![p.username, vt, p.direction, ct, lt, ol];
    // no field holds the player separator
    assert(!contains_char(vt, PLAYER_SEPARATOR)) by {
        lemma_decimal_free_of(p.position.x, PLAYER_SEPARATOR);
        lemma_decimal_free_of(p.position.y, PLAYER_SEPARATOR);
        lemma_decimal_free_of(p.position.z, PLAYER_SEPARATOR);
        let ps = seq![p.position.x, p.position.y, p.position.z];
        assert(forall|k: int| 0 <= k < ps.len() ==> !contains_char(#[trigger] ps[k], PLAYER_SEPARATOR));
        lemma_join_free_of(ps, crate::text::POSITION_SEPARATOR, PLAYER_SEPARATOR);
    }
    lemma_decimal_free_of(p.direction, PLAYER_SEPARATOR);
    assert(!contains_char(ct, PLAYER_SEPARATOR)) by {
        let cs = seq![
            dec_text(p.color.r as nat),
            dec_text(p.color.g as nat),
            dec_text(p.color.b as nat),
            dec_text(p.color.a as nat),
        ];
        lemma_dec_text(p.color.r as nat);
        lemma_dec_text(p.color.g as nat);
        lemma_dec_text(p.color.b as nat);
        lemma_dec_text(p.color.a as nat);
        assert(forall|k: int| 0 <= k < cs.len() ==> !contains_char(#[trigger] cs[k], PLAYER_SEPARATOR));
        lemma_join_free_of(cs, crate::text::VALUE_SEPARATOR, PLAYER_SEPARATOR);
    }
    assert(!contains_char(lt, PLAYER_SEPARATOR)) by {
        match p.lobby_id {
            None => {
            },
            Some(id) => {
                lemma_dec_text(id as nat);
            },
        }
    }
    assert(!contains_char(ol, PLAYER_SEPARATOR)) by {
        let texts = p.objects.map_values(|o: MoodleObjectV| format_object(o));
        assert forall|k: int| 0 <= k < texts.len() implies !contains_char(
            #[trigger] texts[k],
            PLAYER_SEPARATOR,
        ) by {
            lemma_object_text_free_of(p.objects[k], PLAYER_SEPARATOR);
        }
        lemma_join_free_of(texts, OBJECT_PLAYER_INTERACTED_WITH_SEPARATOR, PLAYER_SEPARATOR);
    }
    assert(forall|k: int|
        0 <= k < fields.len() ==> !contains_char(#[trigger] fields[k], PLAYER_SEPARATOR));
    lemma_split_join(fields, PLAYER_SEPARATOR);
    // each field decodes back to its part
    lemma_vector_round_trip(p.position);
    lemma_rgba_round_trip(p.color);
    assert(parse_u64_text(lt) == p.lobby_id) by {
        match p.lobby_id {
            None => {
            },
            Some(id) => {
                lemma_dec_text(id as nat);
            },
        }
    }
    lemma_object_list_round_trip(p.objects, OBJECT_PLAYER_INTERACTED_WITH_SEPARATOR);
    assert(parse_player(format_player(p)).unwrap() =~= p);
}

/// A player text holds no character outside its fields' alphabets and the
/// player-level separators, unless the username or an object link holds it.
pub proof fn lemma_player_text_free_of(p: PlayerV, c: char)
    requires
        player_carryable(p),
        !is_digit(c),
        c != '.',
        c != '-',
        c != crate::text::VALUE_SEPARATOR,
        c != crate::text::POSITION_SEPARATOR,
        c != crate::text::MOODLE_OBJECT_SEPARATOR,
        c != OBJECT_PLAYER_INTERACTED_WITH_SEPARATOR,
        c != PLAYER_SEPARATOR,
        !contains_char(p.username, c),
        forall|k: int|
            0 <= k < p.objects.len() ==> !contains_char((#[trigger] p.objects[k]).link, c),
    ensures
        !contains_char(format_player(p), c),
{
    let vt = format_vector(p.position);
    let ct = format_rgba(p.color);
    let lt = opt_id_text(p.lobby_id);
    let ol = format_object_list(p.objects, OBJECT_PLAYER_INTERACTED_WITH_SEPARATOR);
    assert(!contains_char(vt, c)) by {
        lemma_decimal_free_of(p.position.x, c);
        lemma_decimal_free_of(p.position.y, c);
        lemma_decimal_free_of(p.position.z, c);
        let ps = seq![p.position.x, p.position.y, p.position.z];
        assert(forall|k: int| 0 <= k < ps.len() ==> !contains_char(#[trigger] ps[k], c));
        lemma_join_free_of(ps, crate::text::POSITION_SEPARATOR, c);
    }
    lemma_decimal_free_of(p.direction, c);
    assert(!contains_char(ct, c)) by {
        let cs = seq![
            dec_text(p.color.r as nat),
            dec_text(p.color.g as nat),
            dec_text(p.color.b as nat),
            dec_text(p.color.a as nat),
        ];
        lemma_dec_text(p.color.r as nat);
        lemma_dec_text(p.color.g as nat);
        lemma_dec_text(p.color.b as nat);
        lemma_dec_text(p.color.a as nat);
        assert(forall|k: int| 0 <= k < cs.len() ==> !contains_char(#[trigger] cs[k], c));
        lemma_join_free_of(cs, crate::text::VALUE_SEPARATOR, c);
    }
    assert(!contains_char(lt, c)) by {
        match p.lobby_id {
            None => {
            },
            Some(id) => {
                lemma_dec_text(id as nat);
            },
        }
    }
    assert(!contains_char(ol, c)) by {
        let texts = p.objects.map_values(|o: MoodleObjectV| format_object(o));
        assert forall|k: int| 0 <= k < texts.len() implies !contains_char(
            #[trigger] texts[k],
            c,
        ) by {
            lemma_object_text_free_of(p.objects[k], c);
        }
        lemma_join_free_of(texts, OBJECT_PLAYER_INTERACTED_WITH_SEPARATOR, c);
    }
    let fields = seq![p.username, vt, p.direction, ct, lt, ol];
    assert(forall|k: int| 0 <= k < fields.len() ==> !contains_char(#[trigger] fields[k], c));
    lemma_join_free_of(fields, PLAYER_SEPARATOR, c);
}

/// A text whose top-level field count is not six decodes to nothing.
pub proof fn lemma_player_wrong_arity(s: Seq<char>)
    requires
        split_text(s, PLAYER_SEPARATOR).len() != 6,
    ensures
        parse_player(s) is None,
{
}

impl PlayerModel {
    /// Encodes the player as six separator-joined fields.
    pub fn to_string(&self) -> (r: String)
        ensures
            r@ == format_player(self@),
    {
        let mut parts: Vec<String> = Vec::new();
        parts.push(self.username.clone());
        parts.push(self.position.to_position_string());
        parts.push(self.direction.rad.text.clone());
        parts.push(self.style.to_string());
        let lobby = match self.lobby_id {
            Some(v) => format_u64(v),
            None => String::new(),
        };
        proof {
            assert(lobby@ == opt_id_text(self.lobby_id));
        }
        parts.push(lobby);
        proof {
            reveal_strlit("^");
            assert("^"@ =~= seq![OBJECT_PLAYER_INTERACTED_WITH_SEPARATOR]);
        }
        parts.push(
            object_list_string(
                &self.objects_interacted_with,
                OBJECT_PLAYER_INTERACTED_WITH_SEPARATOR,
                "^",
            ),
        );
        proof {
            reveal_strlit("!");
            assert("!"@ =~= seq![PLAYER_SEPARATOR]);
            assert(views_of(parts@) =~= seq![
                self.username@,
                format_vector(self.position@),
                self.direction.rad.text@,
                format_rgba(self.style.color),
                opt_id_text(self.lobby_id),
                format_object_list(
                    objects_view(self.objects_interacted_with@),
                    OBJECT_PLAYER_INTERACTED_WITH_SEPARATOR,
                ),
            ]);
        }
        join_strings(&parts, PLAYER_SEPARATOR, "!")
    }

    /// Decodes a player text; all-or-nothing but for the lobby field, whose
    /// absence or malformedness both mean "no lobby".
    pub fn from_str(s: &str) -> (r: Result<PlayerModel, DatabaseError>)
        ensures
            match r {
                Ok(p) => parse_player(s@) == Some(p@),
                Err(e) => parse_player(s@) is None && e is EntryCouldNotBeParsed,
            },
    {
        let fields = split_str(s, PLAYER_SEPARATOR);
        if fields.len() != 6 {
            return Err(parse_failure("incorrect number of fields", s));
        }
        let position = match Vector::from_position_str(fields[1].as_str()) {
            Ok(v) => v,
            Err(e) => {
                return Err(e);
            },
        };
        if !check_decimal_str(fields[2].as_str()) {
            return Err(parse_failure("the direction is not a decimal number", s));
        }
        let style = match PlayerStyle::from_str(fields[3].as_str()) {
            Ok(st) => st,
            Err(e) => {
                return Err(e);
            },
        };
        let lobby_id = parse_u64_str(fields[4].as_str());
        let objects_interacted_with = match parse_object_list_str(
            fields[5].as_str(),
            OBJECT_PLAYER_INTERACTED_WITH_SEPARATOR,
        ) {
            Ok(v) => v,
            Err(_) => {
                return Err(parse_failure("an interacted object could not be parsed", s));
            },
        };
        let p = PlayerModel {
            position,
            direction: Rotation { rad: Decimal { text: fields[2].clone() } },
            style,
            username: fields[0].clone(),
            lobby_id,
            objects_interacted_with,
        };
        proof {
            assert(parse_player(s@).unwrap() =~= p@);
        }
        Ok(p)
    }
}

} // verus!
