//! The world codec: width, height, spawn point and the object list, four
//! fields joined by the world separator.
use vstd::prelude::*;
use crate::error::DatabaseError;
use crate::error::parse_failure;
use crate::text::MOODLE_OBJECT_LIST_SEPARATOR;
use crate::text::MOODLE_OBJECT_SEPARATOR;
use crate::text::WORLD_SEPARATOR;
use crate::text::check_decimal_str;
use crate::text::contains_char;
use crate::text::decimal_text_ok;
use crate::text::is_digit;
use crate::text::join_strings;
use crate::text::join_text;
use crate::text::lemma_join_free_of;
use crate::text::lemma_split_join;
use crate::text::split_str;
use crate::text::split_text;
use crate::text::views_of;
use crate::values::Coords;
use crate::values::CoordsV;
use crate::values::Decimal;
use crate::values::coords_wf;
use crate::values::format_coords;
use crate::values::lemma_coords_round_trip;
use crate::values::lemma_coords_text_free_of;
use crate::values::lemma_decimal_free_of;
use crate::values::parse_coords;
use crate::models::moodle_object_model::MoodleObjectModel;
use crate::models::moodle_object_model::MoodleObjectV;
use crate::models::moodle_object_model::format_object;
use crate::models::moodle_object_model::format_object_list;
use crate::models::moodle_object_model::lemma_object_list_round_trip;
use crate::models::moodle_object_model::lemma_object_text_free_of;
use crate::models::moodle_object_model::object_list_string;
use crate::models::moodle_object_model::object_wf;
use crate::models::moodle_object_model::objects_view;
use crate::models::moodle_object_model::parse_object_list;
use crate::models::moodle_object_model::parse_object_list_str;

verus! {

/// A world: its extent, where players spawn, and its interactable objects.
#[derive(Debug, Clone, PartialEq, Eq)]
pub struct WorldModel {
    pub width: Decimal,
    pub height: Decimal,
    pub spawn_point: Coords,
    pub moodle_objects: Vec<MoodleObjectModel>,
}

/// The mathematical shape of a world.
#[verifier::ext_equal]
pub struct WorldV {
    pub width: Seq<char>,
    pub height: Seq<char>,
    pub spawn_point: CoordsV,
    pub moodle_objects: Seq<MoodleObjectV>,
}

impl View for WorldModel {
    type V = WorldV;

    open spec fn view(&self) -> WorldV {
        WorldV {
            width: self.width@,
            height: self.height@,
            spawn_point: self.spawn_point@,
            moodle_objects: objects_view(self.moodle_objects@),
        }
    }
}

/// Decimal extent texts, well-formed spawn coordinates, and objects whose
/// links can be carried inside a world text: free of the object separator,
/// the object-list separator and the world separator.
pub open spec fn world_wf(w: WorldV) -> bool {
    decimal_text_ok(w.width) && decimal_text_ok(w.height) && coords_wf(w.spawn_point) && forall|
        k: int,
    |
        0 <= k < w.moodle_objects.len() ==> object_wf(#[trigger] w.moodle_objects[k])
            && !contains_char(w.moodle_objects[k].link, MOODLE_OBJECT_LIST_SEPARATOR)
            && !contains_char(w.moodle_objects[k].link, WORLD_SEPARATOR)
}

/// The text of a world: width, height, spawn point and the object list,
/// joined by the world separator.
pub open spec fn format_world(w: WorldV) -> Seq<char> {
    join_text(
        seq![
            w.width,
            w.height,
            format_coords(w.spawn_point),
            format_object_list(w.moodle_objects, MOODLE_OBJECT_LIST_SEPARATOR),
        ],
        WORLD_SEPARATOR,
    )
}

/// What a world text decodes to: exactly four fields, decimal width and
/// height, a coordinate triple, and an all-or-nothing object list with empty
/// segments skipped; or nothing.
pub open spec fn parse_world(s: Seq<char>) -> Option<WorldV> {
    let f = split_text(s, WORLD_SEPARATOR);
    if f.len() != 4 {
        None
    } else if !decimal_text_ok(f[0]) || !decimal_text_ok(f[1]) {
        None
    } else {
        match parse_coords(f[2]) {
            None => None,
            Some(sp) => match parse_object_list(
                split_text(f[3], MOODLE_OBJECT_LIST_SEPARATOR),
            ) {
                None => None,
                Some(os) => Some(
                    WorldV { width: f[0], height: f[1], spawn_point: sp, moodle_objects: os },
                ),
            },
        }
    }
}

/// Decoding an encoded world gives the world back, for every well-formed
/// world, with or without objects.
pub proof fn lemma_world_round_trip(w: WorldV)
    requires
        world_wf(w),
    ensures
        parse_world(format_world(w)) == Some(w),
{
    let ct = format_coords(w.spawn_point);
    let ol = format_object_list(w.moodle_objects, MOODLE_OBJECT_LIST_SEPARATOR);
    let fields = seq![w.width, w.height, ct, ol];
    lemma_decimal_free_of(w.width, WORLD_SEPARATOR);
    lemma_decimal_free_of(w.height, WORLD_SEPARATOR);
    lemma_coords_text_free_of(w.spawn_point, WORLD_SEPARATOR);
    let texts = w.moodle_objects.map_values(|o: MoodleObjectV| format_object(o));
    assert forall|k: int| 0 <= k < texts.len() implies !contains_char(
        #[trigger] texts[k],
        WORLD_SEPARATOR,
    ) by {
        lemma_object_text_free_of(w.moodle_objects[k], WORLD_SEPARATOR);
    }
    lemma_join_free_of(texts, MOODLE_OBJECT_LIST_SEPARATOR, WORLD_SEPARATOR);
    assert forall|k: int| 0 <= k < fields.len() implies !contains_char(
        #[trigger] fields[k],
        WORLD_SEPARATOR,
    ) by {
    }
    lemma_split_join(fields, WORLD_SEPARATOR);
    lemma_coords_round_trip(w.spawn_point);
    lemma_object_list_round_trip(w.moodle_objects, MOODLE_OBJECT_LIST_SEPARATOR);
    assert(parse_world(format_world(w)).unwrap() =~= w);
}

/// A world text holds no character outside the decimal and coordinate
/// alphabets and the world-level separators, unless an object link holds it.
pub proof fn lemma_world_text_free_of(w: WorldV, c: char)
    requires
        world_wf(w),
        !is_digit(c),
        c != '.',
        c != '-',
        c != crate::text::VALUE_SEPARATOR,
        c != MOODLE_OBJECT_SEPARATOR,
        c != MOODLE_OBJECT_LIST_SEPARATOR,
        c != WORLD_SEPARATOR,
        forall|k: int|
            0 <= k < w.moodle_objects.len() ==> !contains_char(
                (#[trigger] w.moodle_objects[k]).link,
                c,
            ),
    ensures
        !contains_char(format_world(w), c),
{
    lemma_decimal_free_of(w.width, c);
    lemma_decimal_free_of(w.height, c);
    lemma_coords_text_free_of(w.spawn_point, c);
    let texts = w.moodle_objects.map_values(|o: MoodleObjectV| format_object(o));
    assert forall|k: int| 0 <= k < texts.len() implies !contains_char(#[trigger] texts[k], c) by {
        lemma_object_text_free_of(w.moodle_objects[k], c);
    }
    lemma_join_free_of(texts, MOODLE_OBJECT_LIST_SEPARATOR, c);
    let fields = seq![
        w.width,
        w.height,
        format_coords(w.spawn_point),
        format_object_list(w.moodle_objects, MOODLE_OBJECT_LIST_SEPARATOR),
    ];
    assert(forall|k: int| 0 <= k < fields.len() ==> !contains_char(#[trigger] fields[k], c));
    lemma_join_free_of(fields, WORLD_SEPARATOR, c);
}

/// A text whose top-level field count is not four decodes to nothing.
pub proof fn lemma_world_wrong_arity(s: Seq<char>)
    requires
        split_text(s, WORLD_SEPARATOR).len() != 4,
    ensures
        parse_world(s) is None,
{
}

/// A trailing empty object-list segment changes nothing: a world text that
/// ends in one more list separator decodes to the same world.
pub proof fn lemma_trailing_empty_segment(segs: Seq<Seq<char>>)
    ensures
        parse_object_list(segs.push(seq![])) == parse_object_list(segs),
    decreases segs.len(),
{
    if segs.len() == 0 {
        assert(segs.push(seq![])[0].len() == 0);
        assert(segs.push(seq![]).drop_first() =~= Seq::<Seq<char>>::empty());
        assert(parse_object_list(Seq::<Seq<char>>::empty()) == Some(Seq::<MoodleObjectV>::empty()));
        assert(segs =~= Seq::<Seq<char>>::empty());
    } else {
        lemma_trailing_empty_segment(segs.drop_first());
        assert(segs.push(seq![])[0] == segs[0]);
        assert(segs.push(seq![]).drop_first() =~= segs.drop_first().push(seq![]));
    }
}

impl WorldModel {
    pub open spec fn wf(self) -> bool {
        world_wf(self@)
    }

    /// Encodes the world as four separator-joined fields.
    pub fn to_string(&self) -> (r: String)
        ensures
            r@ == format_world(self@),
    {
        let mut parts: Vec<String> = Vec::new();
        parts.push(self.width.text.clone());
        parts.push(self.height.text.clone());
        parts.push(self.spawn_point.to_string());
        proof {
            reveal_strlit("~");
            assert("~"@ =~= seq![MOODLE_OBJECT_LIST_SEPARATOR]);
        }
        parts.push(object_list_string(&self.moodle_objects, MOODLE_OBJECT_LIST_SEPARATOR, "~"));
        proof {
            reveal_strlit("|");
            assert("|"@ =~= seq![WORLD_SEPARATOR]);
            assert(views_of(parts@) =~= seq![
                self.width.text@,
                self.height.text@,
                format_coords(self.spawn_point@),
                format_object_list(objects_view(self.moodle_objects@), MOODLE_OBJECT_LIST_SEPARATOR),
            ]);
        }
        join_strings(&parts, WORLD_SEPARATOR, "|")
    }

    /// Decodes a world text; all-or-nothing.
    pub fn from_str(s: &str) -> (r: Result<WorldModel, DatabaseError>)
        ensures
            match r {
                Ok(w) => parse_world(s@) == Some(w@),
                Err(e) => parse_world(s@) is None && e is EntryCouldNotBeParsed,
            },
    {
        let fields = split_str(s, WORLD_SEPARATOR);
        if fields.len() != 4 {
            return Err(
                parse_failure(
                    "world data could not be parsed: the number of fields is not correct",
                    s,
                ),
            );
        }
        if !check_decimal_str(fields[0].as_str()) {
            return Err(
                parse_failure("world data could not be parsed: the width is not correct", s),
            );
        }
        if !check_decimal_str(fields[1].as_str()) {
            return Err(
                parse_failure("world data could not be parsed: the height is not correct", s),
            );
        }
        let spawn_point = match Coords::from_str(fields[2].as_str()) {
            Ok(c) => c,
            Err(_) => {
                return Err(
                    parse_failure(
                        "world data could not be parsed: the spawn point is not correct",
                        s,
                    ),
                );
            },
        };
        let moodle_objects = match parse_object_list_str(
            fields[3].as_str(),
            MOODLE_OBJECT_LIST_SEPARATOR,
        ) {
            Ok(v) => v,
            Err(_) => {
                return Err(
                    parse_failure(
                        "world data could not be parsed: an object could not be constructed",
                        s,
                    ),
                );
            },
        };
        let w = WorldModel {
            width: Decimal { text: fields[0].clone() },
            height: Decimal { text: fields[1].clone() },
            spawn_point,
            moodle_objects,
        };
        proof {
            assert(parse_world(s@).unwrap() =~= w@);
        }
        Ok(w)
    }
}

} // verus!
