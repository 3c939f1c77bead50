//! The interactable-object codec: a coordinate triple and a link text,
//! separated by the object separator; and the shared shape of object lists.
use vstd::prelude::*;
use vstd::string::StringExecFns;
use crate::error::DatabaseError;
use crate::error::parse_failure;
use crate::text::MOODLE_OBJECT_SEPARATOR;
use crate::text::VALUE_SEPARATOR;
use crate::text::contains_char;
use crate::text::is_digit;
use crate::text::join_strings;
use crate::text::join_text;
use crate::text::lemma_contains_concat;
use crate::text::lemma_split_at;
use crate::text::lemma_split_no_sep;
use crate::text::lemma_split_join;
use crate::text::split_str;
use crate::text::split_text;
use crate::text::views_of;
use crate::values::Coords;
use crate::values::CoordsV;
use crate::values::coords_wf;
use crate::values::format_coords;
use crate::values::lemma_coords_round_trip;
use crate::values::lemma_coords_text_free_of;
use crate::values::parse_coords;

verus! {

/// An interactable object: where it stands and what it links to.
#[derive(Debug, Clone, PartialEq, Eq)]
pub struct MoodleObjectModel {
    pub coords: Coords,
    pub link: String,
}

/// The mathematical shape of an interactable object.
#[verifier::ext_equal]
pub struct MoodleObjectV {
    pub coords: CoordsV,
    pub link: Seq<char>,
}

impl View for MoodleObjectModel {
    type V = MoodleObjectV;

    open spec fn view(&self) -> MoodleObjectV {
        MoodleObjectV { coords: self.coords@, link: self.link@ }
    }
}

/// Well-formed coordinates, and a link that does not hold the object
/// separator, the one character the codec cannot carry in a link.
pub open spec fn object_wf(o: MoodleObjectV) -> bool {
    coords_wf(o.coords) && !contains_char(o.link, MOODLE_OBJECT_SEPARATOR)
}

/// The text of an object: its coordinate text, the object separator, and the
/// link taken verbatim.
pub open spec fn format_object(o: MoodleObjectV) -> Seq<char> {
    format_coords(o.coords) + seq![MOODLE_OBJECT_SEPARATOR] + o.link
}

/// What an object text decodes to: exactly two separator-delimited fields,
/// the first a coordinate triple, the second the link verbatim; or nothing.
pub open spec fn parse_object(s: Seq<char>) -> Option<MoodleObjectV> {
    let ps = split_text(s, MOODLE_OBJECT_SEPARATOR);
    if ps.len() == 2 && parse_coords(ps[0]) is Some {
        Some(MoodleObjectV { coords: parse_coords(ps[0]).unwrap(), link: ps[1] })
    } else {
        None
    }
}

/// An object text holds no character that is outside the coordinate alphabet
/// and the object separator, unless its link holds it.
pub proof fn lemma_object_text_free_of(o: MoodleObjectV, c: char)
    requires
        coords_wf(o.coords),
        !is_digit(c),
        c != '.',
        c != '-',
        c != VALUE_SEPARATOR,
        c != MOODLE_OBJECT_SEPARATOR,
        !contains_char(o.link, c),
    ensures
        !contains_char(format_object(o), c),
{
    lemma_coords_text_free_of(o.coords, c);
    lemma_contains_concat(format_coords(o.coords), seq![MOODLE_OBJECT_SEPARATOR], c);
    lemma_contains_concat(format_coords(o.coords) + seq![MOODLE_OBJECT_SEPARATOR], o.link, c);
    assert(!contains_char(seq![MOODLE_OBJECT_SEPARATOR], c));
}

/// Decoding an encoded object gives the object back, as long as its link
/// does not hold the object separator.
pub proof fn lemma_object_round_trip(o: MoodleObjectV)
    requires
        object_wf(o),
    ensures
        parse_object(format_object(o)) == Some(o),
{
    lemma_coords_text_free_of(o.coords, MOODLE_OBJECT_SEPARATOR);
    lemma_split_at(format_coords(o.coords), o.link, MOODLE_OBJECT_SEPARATOR);
    lemma_split_no_sep(o.link, MOODLE_OBJECT_SEPARATOR);
    lemma_coords_round_trip(o.coords);
    let ps = split_text(format_object(o), MOODLE_OBJECT_SEPARATOR);
    assert(ps =~= seq![format_coords(o.coords), o.link]);
    assert(parse_object(format_object(o)).unwrap() =~= o);
}

/// A text whose top-level field count is not two decodes to nothing.
pub proof fn lemma_object_wrong_arity(s: Seq<char>)
    requires
        split_text(s, MOODLE_OBJECT_SEPARATOR).len() != 2,
    ensures
        parse_object(s) is None,
{
}

impl MoodleObjectModel {
    pub open spec fn wf(self) -> bool {
        object_wf(self@)
    }

    /// Encodes the object as coordinate text, separator, link.
    pub fn to_string(&self) -> (r: String)
        ensures
            r@ == format_object(self@),
    {
        let mut r = self.coords.to_string();
        proof {
            reveal_strlit("#");
            assert("#"@ =~= seq![MOODLE_OBJECT_SEPARATOR]);
            assert((format_coords(self@.coords) + seq![MOODLE_OBJECT_SEPARATOR]) + self.link@
                =~= format_object(self@));
        }
        r.append("#");
        r.append(self.link.as_str());
        r
    }

    /// Decodes an object text; all-or-nothing.
    pub fn from_str(s: &str) -> (r: Result<MoodleObjectModel, DatabaseError>)
        ensures
            match r {
                Ok(m) => parse_object(s@) == Some(m@),
                Err(e) => parse_object(s@) is None && e is EntryCouldNotBeParsed,
            },
    {
        let parts = split_str(s, MOODLE_OBJECT_SEPARATOR);
        if parts.len() != 2 {
            return Err(
                parse_failure("could not be parsed to an object: the number of fields is not 2", s),
            );
        }
        let coords = match Coords::from_str(parts[0].as_str()) {
            Ok(c) => c,
            Err(e) => {
                return Err(e);
            },
        };
        let m = MoodleObjectModel { coords, link: parts[1].clone() };
        proof {
            assert(parse_object(s@).unwrap() =~= m@);
        }
        Ok(m)
    }
}

/// The views of a list of objects.
pub open spec fn objects_view(v: Seq<MoodleObjectModel>) -> Seq<MoodleObjectV> {
    v.map_values(|o: MoodleObjectModel| o@)
}

/// The text of an object list: the objects' texts joined by `sep`.
pub open spec fn format_object_list(os: Seq<MoodleObjectV>, sep: char) -> Seq<char> {
    join_text(os.map_values(|o: MoodleObjectV| format_object(o)), sep)
}

/// What a list of segments decodes to: the decoded objects of the non-empty
/// segments in order, or nothing as soon as one non-empty segment is refused.
/// Empty segments are skipped silently.
pub open spec fn parse_object_list(segs: Seq<Seq<char>>) -> Option<Seq<MoodleObjectV>>
    decreases segs.len(),
{
    if segs.len() == 0 {
        Some(seq![])
    } else if segs[0].len() == 0 {
        parse_object_list(segs.drop_first())
    } else {
        match parse_object(segs[0]) {
            None => None,
            Some(o) => match parse_object_list(segs.drop_first()) {
                None => None,
                Some(os) => Some(seq![o] + os),
            },
        }
    }
}

/// Decoding distributes over any cut of the segment list.
pub proof fn lemma_parse_object_list_split(segs: Seq<Seq<char>>, i: int)
    requires
        0 <= i <= segs.len(),
    ensures
        parse_object_list(segs) == match parse_object_list(segs.take(i)) {
            None => None::<Seq<MoodleObjectV>>,
            Some(a) => match parse_object_list(segs.skip(i)) {
                None => None,
                Some(b) => Some(a + b),
            },
        },
    decreases i,
{
    if i == 0 {
        assert(segs.take(0) =~= Seq::<Seq<char>>::empty());
        assert(segs.skip(0) =~= segs);
        if parse_object_list(segs) is Some {
            assert(seq![] + parse_object_list(segs).unwrap() =~= parse_object_list(segs).unwrap());
        }
    } else {
        lemma_parse_object_list_split(segs.drop_first(), i - 1);
        assert(segs.take(i).drop_first() =~= segs.drop_first().take(i - 1));
        assert(segs.skip(i) =~= segs.drop_first().skip(i - 1));
        assert(segs.take(i)[0] == segs[0]);
        if segs[0].len() == 0 {
        } else {
            match parse_object(segs[0]) {
                None => {
                },
                Some(o) => {
                    let rest = parse_object_list(segs.drop_first());
                    let a1 = parse_object_list(segs.drop_first().take(i - 1));
                    if a1 is Some && parse_object_list(segs.skip(i)) is Some {
                        assert(seq![o] + (a1.unwrap() + parse_object_list(segs.skip(i)).unwrap())
                            =~= (seq![o] + a1.unwrap()) + parse_object_list(segs.skip(i)).unwrap());
                    }
                },
            }
        }
    }
}

/// Decoding a formatted object list gives the objects back, as long as every
/// link is free of the object separator and of the list separator `sep`.
pub proof fn lemma_object_list_round_trip(os: Seq<MoodleObjectV>, sep: char)
    requires
        !is_digit(sep),
        sep != '.',
        sep != '-',
        sep != VALUE_SEPARATOR,
        sep != MOODLE_OBJECT_SEPARATOR,
        forall|k: int|
            0 <= k < os.len() ==> object_wf(#[trigger] os[k]) && !contains_char(os[k].link, sep),
    ensures
        parse_object_list(split_text(format_object_list(os, sep), sep)) == Some(os),
    decreases os.len(),
{
    let texts = os.map_values(|o: MoodleObjectV| format_object(o));
    if os.len() == 0 {
        assert(format_object_list(os, sep) =~= Seq::<char>::empty());
        assert(split_text(seq![], sep) =~= seq![Seq::<char>::empty()]);
        assert(parse_object_list(seq![Seq::<char>::empty()]) == parse_object_list(
            seq![Seq::<char>::empty()].drop_first(),
        ));
        assert(seq![Seq::<char>::empty()].drop_first() =~= Seq::<Seq<char>>::empty());
    } else {
        assert forall|k: int| 0 <= k < texts.len() implies !contains_char(
            #[trigger] texts[k],
            sep,
        ) by {
            lemma_object_text_free_of(os[k], sep);
        }
        lemma_split_join(texts, sep);
        lemma_parse_texts(os, sep);
    }
}

/// Decoding the exact texts of formatted objects gives the objects back.
proof fn lemma_parse_texts(os: Seq<MoodleObjectV>, sep: char)
    requires
        forall|k: int| 0 <= k < os.len() ==> object_wf(#[trigger] os[k]),
    ensures
        parse_object_list(os.map_values(|o: MoodleObjectV| format_object(o))) == Some(os),
    decreases os.len(),
{
    let texts = os.map_values(|o: MoodleObjectV| format_object(o));
    if os.len() == 0 {
        assert(texts =~= Seq::<Seq<char>>::empty());
        assert(Some(Seq::<MoodleObjectV>::empty()) =~= Some(os));
    } else {
        assert(texts[0] == format_object(os[0]));
        assert(texts[0].len() > 0) by {
            assert(format_object(os[0]).len() == format_coords(os[0].coords).len() + 1
                + os[0].link.len());
        }
        lemma_object_round_trip(os[0]);
        lemma_parse_texts(os.drop_first(), sep);
        assert(texts.drop_first() =~= os.drop_first().map_values(
            |o: MoodleObjectV| format_object(o),
        ));
        assert(seq![os[0]] + os.drop_first() =~= os);
    }
}

/// Encodes the objects and joins their texts with the one-character
/// separator text `sep_str`.
pub fn object_list_string(objs: &Vec<MoodleObjectModel>, sep: char, sep_str: &str) -> (r: String)
    requires
        sep_str@ =~= seq![sep],
    ensures
        r@ == format_object_list(objects_view(objs@), sep),
{
    let mut texts: Vec<String> = Vec::new();
    let mut i: usize = 0;
    while i < objs.len()
        invariant
            i <= objs@.len(),
            views_of(texts@) =~= objects_view(objs@).take(i as int).map_values(
                (|o: MoodleObjectV| format_object(o)),
            ),
        decreases objs@.len() - i,
    {
        let t = objs[i].to_string();
        proof {
            assert(views_of(texts@.push(t)) =~= views_of(texts@).push(t@));
            assert(objects_view(objs@).take(i as int + 1).map_values(
                (|o: MoodleObjectV| format_object(o)),
            ) =~= objects_view(objs@).take(i as int).map_values(
                (|o: MoodleObjectV| format_object(o)),
            ).push(format_object(objs@[i as int]@)));
        }
        texts.push(t);
        i += 1;
    }
    proof {
        assert(objects_view(objs@).take(objs@.len() as int) =~= objects_view(objs@));
    }
    join_strings(&texts, sep, sep_str)
}

/// Splits `s` on `sep` and decodes every non-empty segment as an object;
/// all-or-nothing, empty segments skipped.
pub fn parse_object_list_str(s: &str, sep: char) -> (r: Result<
    Vec<MoodleObjectModel>,
    DatabaseError,
>)
    ensures
        match r {
            Ok(v) => parse_object_list(split_text(s@, sep)) == Some(objects_view(v@)),
            Err(e) => parse_object_list(split_text(s@, sep)) is None && e
                is EntryCouldNotBeParsed,
        },
{
    let segs = split_str(s, sep);
    let ghost ss = split_text(s@, sep);
    let mut out: Vec<MoodleObjectModel> = Vec::new();
    let mut i: usize = 0;
    while i < segs.len()
        invariant
            i <= segs@.len(),
            ss == split_text(s@, sep),
            views_of(segs@) == ss,
            parse_object_list(ss.take(i as int)) == Some(objects_view(out@)),
        decreases segs@.len() - i,
    {
        proof {
            assert(ss[i as int] == segs@[i as int]@);
            assert(parse_object_list(Seq::<Seq<char>>::empty()) == Some(
                Seq::<MoodleObjectV>::empty(),
            ));
            lemma_parse_object_list_split(ss, i as int + 1);
            assert(ss.take(i as int + 1).take(i as int) =~= ss.take(i as int));
            assert(ss.take(i as int + 1).skip(i as int) =~= seq![ss[i as int]]);
            lemma_parse_object_list_split(ss.take(i as int + 1), i as int);
            assert(seq![ss[i as int]].drop_first() =~= Seq::<Seq<char>>::empty());
        }
        if !segs[i].as_str().is_empty() {
            match MoodleObjectModel::from_str(segs[i].as_str()) {
                Ok(m) => {
                    proof {
                        let o = m@;
                        assert(seq![o] + Seq::<MoodleObjectV>::empty() =~= seq![o]);
                        assert(parse_object_list(seq![ss[i as int]]) == Some(seq![o]));
                        assert(objects_view(out@.push(m)) =~= objects_view(out@) + seq![o]);
                    }
                    out.push(m);
                },
                Err(_) => {
                    proof {
                        lemma_parse_object_list_split(ss, i as int);
                        assert(ss.skip(i as int)[0] == ss[i as int]);
                        assert(ss.skip(i as int).len() > 0);
                        assert(parse_object_list(ss.skip(i as int)) is None);
                        assert(parse_object_list(ss) is None);
                    }
                    return Err(
                        parse_failure("an object of the list could not be constructed", s),
                    );
                },
            }
        } else {
            proof {
                assert(parse_object_list(seq![ss[i as int]]) == Some(Seq::<MoodleObjectV>::empty()));
                assert(objects_view(out@) + Seq::<MoodleObjectV>::empty() =~= objects_view(out@));
            }
        }
        i += 1;
    }
    proof {
        assert(ss.take(ss.len() as int) =~= ss);
    }
    Ok(out)
}

} // verus!
