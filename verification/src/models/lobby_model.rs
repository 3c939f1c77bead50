//! The lobby codec: name, world text and player list, three fields joined by
//! the lobby separator; each player record is an id and a player text.
use vstd::prelude::*;
use crate::error::DatabaseError;
use crate::error::parse_failure;
use crate::text::LOBBY_PLAYER_LIST_SEPARATOR;
use crate::text::LOBBY_PLAYER_MODELS_SEPARATOR;
use crate::text::LOBBY_SEPARATOR;
use crate::text::contains_char;
use crate::text::dec_text;
use crate::text::format_u64;
use crate::text::is_digit;
use crate::text::join_strings;
use crate::text::join_text;
use crate::text::lemma_contains_concat;
use crate::text::lemma_dec_text;
use crate::text::lemma_join_free_of;
use crate::text::lemma_split_at;
use crate::text::lemma_split_join;
use crate::text::lemma_split_no_sep;
use crate::text::parse_u64_str;
use crate::text::parse_u64_text;
use crate::text::split_str;
use crate::text::split_text;
use crate::text::views_of;
use crate::models::player_model::PlayerModel;
use crate::models::player_model::PlayerV;
use crate::models::player_model::format_player;
use crate::models::player_model::lemma_player_round_trip;
use crate::models::player_model::lemma_player_text_free_of;
use crate::models::player_model::parse_player;
use crate::models::player_model::player_carryable;
use crate::models::world_model::WorldModel;
use crate::models::world_model::WorldV;
use crate::models::world_model::format_world;
use crate::models::world_model::lemma_world_round_trip;
use crate::models::world_model::lemma_world_text_free_of;
use crate::models::world_model::parse_world;
use crate::models::world_model::world_wf;

verus! {

/// A player as a lobby carries it: its storage id and its payload.
#[derive(Debug, Clone, PartialEq, Eq)]
pub struct LobbyPlayerModel {
    pub id: u64,
    pub model: PlayerModel,
}

/// The mathematical shape of a lobby's player record.
#[verifier::ext_equal]
pub struct LobbyPlayerV {
    pub id: u64,
    pub player: PlayerV,
}

impl View for LobbyPlayerModel {
    type V = LobbyPlayerV;

    open spec fn view(&self) -> LobbyPlayerV {
        LobbyPlayerV { id: self.id, player: self.model@ }
    }
}

/// The text of a lobby's player record: the id's numeral, the record
/// separator, and the player's text.
pub open spec fn format_lobby_player(lp: LobbyPlayerV) -> Seq<char> {
    dec_text(lp.id as nat) + seq![LOBBY_PLAYER_MODELS_SEPARATOR] + format_player(lp.player)
}

/// What a player-record text decodes to: exactly two fields, a numeral id
/// and a player text; or nothing.
pub open spec fn parse_lobby_player(s: Seq<char>) -> Option<LobbyPlayerV> {
    let ps = split_text(s, LOBBY_PLAYER_MODELS_SEPARATOR);
    if ps.len() == 2 && parse_u64_text(ps[0]) is Some && parse_player(ps[1]) is Some {
        Some(
            LobbyPlayerV { id: parse_u64_text(ps[0]).unwrap(), player: parse_player(ps[1]).unwrap() },
        )
    } else {
        None
    }
}

/// Whether a player record's string fields can be carried by the lobby
/// codec: the player itself is carryable, and its username and object links
/// are also free of the record, list and lobby separators.
pub open spec fn lobby_player_carryable(lp: LobbyPlayerV) -> bool {
    player_carryable(lp.player) && !contains_char(lp.player.username, LOBBY_PLAYER_MODELS_SEPARATOR)
        && !contains_char(lp.player.username, LOBBY_PLAYER_LIST_SEPARATOR) && !contains_char(
        lp.player.username,
        LOBBY_SEPARATOR,
    ) && forall|k: int|
        0 <= k < lp.player.objects.len() ==> !contains_char(
            (#[trigger] lp.player.objects[k]).link,
            LOBBY_PLAYER_MODELS_SEPARATOR,
        ) && !contains_char(lp.player.objects[k].link, LOBBY_PLAYER_LIST_SEPARATOR)
            && !contains_char(lp.player.objects[k].link, LOBBY_SEPARATOR)
}

/// Decoding an encoded player record gives the record back.
pub proof fn lemma_lobby_player_round_trip(lp: LobbyPlayerV)
    requires
        lobby_player_carryable(lp),
    ensures
        parse_lobby_player(format_lobby_player(lp)) == Some(lp),
{
    let idt = dec_text(lp.id as nat);
    let pt = format_player(lp.player);
    lemma_dec_text(lp.id as nat);
    lemma_split_at(idt, pt, LOBBY_PLAYER_MODELS_SEPARATOR);
    lemma_player_text_free_of(lp.player, LOBBY_PLAYER_MODELS_SEPARATOR);
    lemma_split_no_sep(pt, LOBBY_PLAYER_MODELS_SEPARATOR);
    lemma_player_round_trip(lp.player);
    let ps = split_text(format_lobby_player(lp), LOBBY_PLAYER_MODELS_SEPARATOR);
    assert(ps =~= seq![idt, pt]);
    assert(parse_lobby_player(format_lobby_player(lp)).unwrap() =~= lp);
}

/// A record text holds no character outside its player's alphabet and the
/// record separator, unless the username or an object link holds it.
proof fn lemma_lobby_player_text_free_of(lp: LobbyPlayerV, c: char)
    requires
        lobby_player_carryable(lp),
        !is_digit(c),
        c != '.',
        c != '-',
        c != crate::text::VALUE_SEPARATOR,
        c != crate::text::POSITION_SEPARATOR,
        c != crate::text::MOODLE_OBJECT_SEPARATOR,
        c != crate::text::OBJECT_PLAYER_INTERACTED_WITH_SEPARATOR,
        c != crate::text::PLAYER_SEPARATOR,
        c != LOBBY_PLAYER_MODELS_SEPARATOR,
        !contains_char(lp.player.username, c),
        forall|k: int|
            0 <= k < lp.player.objects.len() ==> !contains_char(
                (#[trigger] lp.player.objects[k]).link,
                c,
            ),
    ensures
        !contains_char(format_lobby_player(lp), c),
{
    lemma_dec_text(lp.id as nat);
    lemma_player_text_free_of(lp.player, c);
    let idt = dec_text(lp.id as nat);
    let pt = format_player(lp.player);
    lemma_contains_concat(idt, seq![LOBBY_PLAYER_MODELS_SEPARATOR], c);
    lemma_contains_concat(idt + seq![LOBBY_PLAYER_MODELS_SEPARATOR], pt, c);
    assert(!contains_char(seq![LOBBY_PLAYER_MODELS_SEPARATOR], c));
    assert(!contains_char(idt, c));
}

/// A text whose field count is not two decodes to no player record.
pub proof fn lemma_lobby_player_wrong_arity(s: Seq<char>)
    requires
        split_text(s, LOBBY_PLAYER_MODELS_SEPARATOR).len() != 2,
    ensures
        parse_lobby_player(s) is None,
{
}

impl LobbyPlayerModel {
    /// Encodes the record as id, separator, player text.
    pub fn to_string(&self) -> (r: String)
        ensures
            r@ == format_lobby_player(self@),
    {
        let mut r = format_u64(self.id);
        let pt = self.model.to_string();
        proof {
            reveal_strlit("@");
            assert("@"@ =~= seq![LOBBY_PLAYER_MODELS_SEPARATOR]);
            assert((dec_text(self.id as nat) + seq![LOBBY_PLAYER_MODELS_SEPARATOR]) + pt@
                =~= format_lobby_player(self@));
        }
        r.append("@");
        r.append(pt.as_str());
        r
    }

    /// Decodes a player-record text; all-or-nothing.
    pub fn from_str(s: &str) -> (r: Result<LobbyPlayerModel, DatabaseError>)
        ensures
            match r {
                Ok(lp) => parse_lobby_player(s@) == Some(lp@),
                Err(e) => parse_lobby_player(s@) is None && e is EntryCouldNotBeParsed,
            },
    {
        let parts = split_str(s, LOBBY_PLAYER_MODELS_SEPARATOR);
        if parts.len() != 2 {
            return Err(
                parse_failure("the number of fields of a lobby player record is not correct", s),
            );
        }
        let id = match parse_u64_str(parts[0].as_str()) {
            Some(v) => v,
            None => {
                return Err(parse_failure("the id of a lobby player record is not a number", s));
            },
        };
        let model = match PlayerModel::from_str(parts[1].as_str()) {
            Ok(p) => p,
            Err(_) => {
                return Err(
                    parse_failure("the player of a lobby player record could not be parsed", s),
                );
            },
        };
        let lp = LobbyPlayerModel { id, model };
        proof {
            assert(parse_lobby_player(s@).unwrap() =~= lp@);
        }
        Ok(lp)
    }
}

/// The views of a list of lobby player records.
pub open spec fn players_view(v: Seq<LobbyPlayerModel>) -> Seq<LobbyPlayerV> {
    v.map_values(|p: LobbyPlayerModel| p@)
}

/// The text of a player list: the records' texts joined by the list
/// separator.
pub open spec fn format_player_list(ls: Seq<LobbyPlayerV>) -> Seq<char> {
    join_text(
        ls.map_values(|lp: LobbyPlayerV| format_lobby_player(lp)),
        LOBBY_PLAYER_LIST_SEPARATOR,
    )
}

/// What a list of segments decodes to: the decoded records of the non-empty
/// segments in order, or nothing as soon as one non-empty segment is
/// refused. Empty segments are skipped silently.
pub open spec fn parse_player_list(segs: Seq<Seq<char>>) -> Option<Seq<LobbyPlayerV>>
    decreases segs.len(),
{
    if segs.len() == 0 {
        Some(seq![])
    } else if segs[0].len() == 0 {
        parse_player_list(segs.drop_first())
    } else {
        match parse_lobby_player(segs[0]) {
            None => None,
            Some(lp) => match parse_player_list(segs.drop_first()) {
                None => None,
                Some(ls) => Some(seq![lp] + ls),
            },
        }
    }
}

/// Decoding distributes over any cut of the segment list.
pub proof fn lemma_parse_player_list_split(segs: Seq<Seq<char>>, i: int)
    requires
        0 <= i <= segs.len(),
    ensures
        parse_player_list(segs) == match parse_player_list(segs.take(i)) {
            None => None::<Seq<LobbyPlayerV>>,
            Some(a) => match parse_player_list(segs.skip(i)) {
                None => None,
                Some(b) => Some(a + b),
            },
        },
    decreases i,
{
    if i == 0 {
        assert(segs.take(0) =~= Seq::<Seq<char>>::empty());
        assert(segs.skip(0) =~= segs);
        if parse_player_list(segs) is Some {
            assert(seq![] + parse_player_list(segs).unwrap() =~= parse_player_list(segs).unwrap());
        }
    } else {
        lemma_parse_player_list_split(segs.drop_first(), i - 1);
        assert(segs.take(i).drop_first() =~= segs.drop_first().take(i - 1));
        assert(segs.skip(i) =~= segs.drop_first().skip(i - 1));
        assert(segs.take(i)[0] == segs[0]);
        if segs[0].len() == 0 {
        } else {
            match parse_lobby_player(segs[0]) {
                None => {
                },
                Some(lp) => {
                    let a1 = parse_player_list(segs.drop_first().take(i - 1));
                    if a1 is Some && parse_player_list(segs.skip(i)) is Some {
                        assert(seq![lp] + (a1.unwrap() + parse_player_list(segs.skip(i)).unwrap())
                            =~= (seq![lp] + a1.unwrap()) + parse_player_list(
                            segs.skip(i),
                        ).unwrap());
                    }
                },
            }
        }
    }
}

/// Decoding the exact texts of formatted player records gives them back.
proof fn lemma_parse_player_texts(ls: Seq<LobbyPlayerV>)
    requires
        forall|k: int| 0 <= k < ls.len() ==> lobby_player_carryable(#[trigger] ls[k]),
    ensures
        parse_player_list(ls.map_values(|lp: LobbyPlayerV| format_lobby_player(lp))) == Some(ls),
    decreases ls.len(),
{
    let texts = ls.map_values(|lp: LobbyPlayerV| format_lobby_player(lp));
    if ls.len() == 0 {
        assert(texts =~= Seq::<Seq<char>>::empty());
        assert(Some(Seq::<LobbyPlayerV>::empty()) =~= Some(ls));
    } else {
        assert(texts[0] == format_lobby_player(ls[0]));
        lemma_dec_text(ls[0].id as nat);
        assert(texts[0].len() > 0) by {
            assert(format_lobby_player(ls[0]).len() == dec_text(ls[0].id as nat).len() + 1
                + format_player(ls[0].player).len());
        }
        lemma_lobby_player_round_trip(ls[0]);
        lemma_parse_player_texts(ls.drop_first());
        assert(texts.drop_first() =~= ls.drop_first().map_values(
            |lp: LobbyPlayerV| format_lobby_player(lp),
        ));
        assert(seq![ls[0]] + ls.drop_first() =~= ls);
    }
}

/// Decoding a formatted player list gives the records back.
pub proof fn lemma_player_list_round_trip(ls: Seq<LobbyPlayerV>)
    requires
        forall|k: int| 0 <= k < ls.len() ==> lobby_player_carryable(#[trigger] ls[k]),
    ensures
        parse_player_list(split_text(format_player_list(ls), LOBBY_PLAYER_LIST_SEPARATOR)) == Some(
            ls,
        ),
{
    let texts = ls.map_values(|lp: LobbyPlayerV| format_lobby_player(lp));
    if ls.len() == 0 {
        assert(format_player_list(ls) =~= Seq::<char>::empty());
        assert(split_text(seq![], LOBBY_PLAYER_LIST_SEPARATOR) =~= seq![Seq::<char>::empty()]);
        assert(parse_player_list(seq![Seq::<char>::empty()]) == parse_player_list(
            seq![Seq::<char>::empty()].drop_first(),
        ));
        assert(seq![Seq::<char>::empty()].drop_first() =~= Seq::<Seq<char>>::empty());
        assert(parse_player_list(Seq::<Seq<char>>::empty()) == Some(Seq::<LobbyPlayerV>::empty()));
        assert(Some(Seq::<LobbyPlayerV>::empty()) =~= Some(ls));
    } else {
        assert forall|k: int| 0 <= k < texts.len() implies !contains_char(
            #[trigger] texts[k],
            LOBBY_PLAYER_LIST_SEPARATOR,
        ) by {
            lemma_lobby_player_text_free_of(ls[k], LOBBY_PLAYER_LIST_SEPARATOR);
        }
        lemma_split_join(texts, LOBBY_PLAYER_LIST_SEPARATOR);
        lemma_parse_player_texts(ls);
    }
}

/// A lobby: its name, its world, and the players inside it.
#[derive(Debug, Clone, PartialEq, Eq)]
pub struct LobbyModel {
    pub name: String,
    pub world: WorldModel,
    pub players: Vec<LobbyPlayerModel>,
}

/// The mathematical shape of a lobby.
#[verifier::ext_equal]
pub struct LobbyV {
    pub name: Seq<char>,
    pub world: WorldV,
    pub players: Seq<LobbyPlayerV>,
}

impl View for LobbyModel {
    type V = LobbyV;

    open spec fn view(&self) -> LobbyV {
        LobbyV { name: self.name@, world: self.world@, players: players_view(self.players@) }
    }
}

/// The text of a lobby: name, world text and player list, joined by the
/// lobby separator.
pub open spec fn format_lobby(l: LobbyV) -> Seq<char> {
    join_text(
        seq![l.name, format_world(l.world), format_player_list(l.players)],
        LOBBY_SEPARATOR,
    )
}

/// What a lobby text decodes to: exactly three fields, the second a world
/// text, the third an all-or-nothing player list with empty segments
/// skipped; or nothing.
pub open spec fn parse_lobby(s: Seq<char>) -> Option<LobbyV> {
    let f = split_text(s, LOBBY_SEPARATOR);
    if f.len() != 3 {
        None
    } else {
        match parse_world(f[1]) {
            None => None,
            Some(w) => match parse_player_list(split_text(f[2], LOBBY_PLAYER_LIST_SEPARATOR)) {
                None => None,
                Some(ls) => Some(LobbyV { name: f[0], world: w, players: ls }),
            },
        }
    }
}

/// Whether a lobby's string fields can be carried by the codec: the name is
/// free of the lobby separator, the world is well-formed with object links
/// free of the lobby separator, and every player record is carryable.
pub open spec fn lobby_carryable(l: LobbyV) -> bool {
    !contains_char(l.name, LOBBY_SEPARATOR) && world_wf(l.world) && (forall|k: int|
        0 <= k < l.world.moodle_objects.len() ==> !contains_char(
            (#[trigger] l.world.moodle_objects[k]).link,
            LOBBY_SEPARATOR,
        )) && forall|k: int| 0 <= k < l.players.len() ==> lobby_player_carryable(#[trigger] l.players[k])
}

/// Decoding an encoded lobby gives the lobby back, for every carryable
/// lobby, with or without players.
pub proof fn lemma_lobby_round_trip(l: LobbyV)
    requires
        lobby_carryable(l),
    ensures
        parse_lobby(format_lobby(l)) == Some(l),
{
    let wt = format_world(l.world);
    let plt = format_player_list(l.players);
    let fields = seq![l.name, wt, plt];
    lemma_world_text_free_of(l.world, LOBBY_SEPARATOR);
    assert(!contains_char(plt, LOBBY_SEPARATOR)) by {
        let texts = l.players.map_values(|lp: LobbyPlayerV| format_lobby_player(lp));
        assert forall|k: int| 0 <= k < texts.len() implies !contains_char(
            #[trigger] texts[k],
            LOBBY_SEPARATOR,
        ) by {
            lemma_lobby_player_text_free_of(l.players[k], LOBBY_SEPARATOR);
        }
        lemma_join_free_of(texts, LOBBY_PLAYER_LIST_SEPARATOR, LOBBY_SEPARATOR);
    }
    assert(forall|k: int| 0 <= k < fields.len() ==> !contains_char(#[trigger] fields[k], LOBBY_SEPARATOR));
    lemma_split_join(fields, LOBBY_SEPARATOR);
    lemma_world_round_trip(l.world);
    lemma_player_list_round_trip(l.players);
    assert(parse_lobby(format_lobby(l)).unwrap() =~= l);
}

/// A text whose top-level field count is not three decodes to no lobby.
pub proof fn lemma_lobby_wrong_arity(s: Seq<char>)
    requires
        split_text(s, LOBBY_SEPARATOR).len() != 3,
    ensures
        parse_lobby(s) is None,
{
}

impl LobbyModel {
    /// Encodes the lobby as three separator-joined fields.
    pub fn to_string(&self) -> (r: String)
        ensures
            r@ == format_lobby(self@),
    {
        let mut parts: Vec<String> = Vec::new();
        parts.push(self.name.clone());
        parts.push(self.world.to_string());
        let mut texts: Vec<String> = Vec::new();
        let mut i: usize = 0;
        while i < self.players.len()
            invariant
                i <= self.players@.len(),
                views_of(texts@) =~= players_view(self.players@).take(i as int).map_values(
                    (|lp: LobbyPlayerV| format_lobby_player(lp)),
                ),
            decreases self.players@.len() - i,
        {
            let t = self.players[i].to_string();
            proof {
                assert(views_of(texts@.push(t)) =~= views_of(texts@).push(t@));
                assert(players_view(self.players@).take(i as int + 1).map_values(
                    (|lp: LobbyPlayerV| format_lobby_player(lp)),
                ) =~= players_view(self.players@).take(i as int).map_values(
                    (|lp: LobbyPlayerV| format_lobby_player(lp)),
                ).push(format_lobby_player(self.players@[i as int]@)));
            }
            texts.push(t);
            i += 1;
        }
        proof {
            reveal_strlit("%");
            assert("%"@ =~= seq![LOBBY_PLAYER_LIST_SEPARATOR]);
            assert(players_view(self.players@).take(self.players@.len() as int) =~= players_view(
                self.players@,
            ));
        }
        parts.push(join_strings(&texts, LOBBY_PLAYER_LIST_SEPARATOR, "%"));
        proof {
            reveal_strlit("$");
            assert("$"@ =~= seq![LOBBY_SEPARATOR]);
            assert(views_of(parts@) =~= seq![
                self.name@,
                format_world(self.world@),
                format_player_list(players_view(self.players@)),
            ]);
        }
        join_strings(&parts, LOBBY_SEPARATOR, "$")
    }

    /// Decodes a lobby text; all-or-nothing.
    #[verifier::loop_isolation(false)]
    pub fn from_str(s: &str) -> (r: Result<LobbyModel, DatabaseError>)
        ensures
            match r {
                Ok(l) => parse_lobby(s@) == Some(l@),
                Err(e) => parse_lobby(s@) is None && e is EntryCouldNotBeParsed,
            },
    {
        let fields = split_str(s, LOBBY_SEPARATOR);
        if fields.len() != 3 {
            return Err(
                parse_failure("a lobby could not be constructed: the fields are not exactly 3", s),
            );
        }
        let world = match WorldModel::from_str(fields[1].as_str()) {
            Ok(w) => w,
            Err(_) => {
                return Err(
                    parse_failure(
                        "a lobby could not be constructed: the world data could not be constructed",
                        s,
                    ),
                );
            },
        };
        let segs = split_str(fields[2].as_str(), LOBBY_PLAYER_LIST_SEPARATOR);
        let ghost ss = split_text(fields@[2]@, LOBBY_PLAYER_LIST_SEPARATOR);
        let mut players: Vec<LobbyPlayerModel> = Vec::new();
        let mut i: usize = 0;
        while i < segs.len()
            invariant
                i <= segs@.len(),
                ss == split_text(fields@[2]@, LOBBY_PLAYER_LIST_SEPARATOR),
                views_of(segs@) == ss,
                parse_player_list(ss.take(i as int)) == Some(players_view(players@)),
            decreases segs@.len() - i,
        {
            proof {
                assert(ss[i as int] == segs@[i as int]@);
                assert(parse_player_list(Seq::<Seq<char>>::empty()) == Some(
                    Seq::<LobbyPlayerV>::empty(),
                ));
                lemma_parse_player_list_split(ss, i as int + 1);
                assert(ss.take(i as int + 1).take(i as int) =~= ss.take(i as int));
                assert(ss.take(i as int + 1).skip(i as int) =~= seq![ss[i as int]]);
                lemma_parse_player_list_split(ss.take(i as int + 1), i as int);
                assert(seq![ss[i as int]].drop_first() =~= Seq::<Seq<char>>::empty());
            }
            if !segs[i].as_str().is_empty() {
                match LobbyPlayerModel::from_str(segs[i].as_str()) {
                    Ok(lp) => {
                        proof {
                            let v = lp@;
                            assert(seq![v] + Seq::<LobbyPlayerV>::empty() =~= seq![v]);
                            assert(parse_player_list(seq![ss[i as int]]) == Some(seq![v]));
                            assert(players_view(players@.push(lp)) =~= players_view(players@)
                                + seq![v]);
                        }
                        players.push(lp);
                    },
                    Err(_) => {
                        proof {
                            lemma_parse_player_list_split(ss, i as int);
                            assert(ss.skip(i as int)[0] == ss[i as int]);
                            assert(ss.skip(i as int).len() > 0);
                            assert(parse_player_list(ss.skip(i as int)) is None);
                            assert(parse_player_list(ss) is None);
                        }
                        return Err(
                            parse_failure(
                                "a lobby could not be constructed: a player record could not be parsed",
                                s,
                            ),
                        );
                    },
                }
            } else {
                proof {
                    assert(parse_player_list(seq![ss[i as int]]) == Some(
                        Seq::<LobbyPlayerV>::empty(),
                    ));
                    assert(players_view(players@) + Seq::<LobbyPlayerV>::empty() =~= players_view(
                        players@,
                    ));
                }
            }
            i += 1;
        }
        proof {
            assert(ss.take(ss.len() as int) =~= ss);
        }
        let l = LobbyModel { name: fields[0].clone(), world, players };
        proof {
            assert(parse_lobby(s@).unwrap() =~= l@);
        }
        Ok(l)
    }
}

} // verus!
