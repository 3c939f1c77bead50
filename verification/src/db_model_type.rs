//! The dispatch layer: the closed table enumeration, the tagged union over
//! decoded payloads, and the choice of codec by table identity.
use vstd::prelude::*;
use crate::error::DatabaseError;
use crate::error::parse_failure;
use crate::models::lobby_model::LobbyModel;
use crate::models::lobby_model::LobbyV;
use crate::models::lobby_model::format_lobby;
use crate::models::lobby_model::parse_lobby;
use crate::models::moodle_object_model::MoodleObjectModel;
use crate::models::moodle_object_model::MoodleObjectV;
use crate::models::moodle_object_model::format_object;
use crate::models::moodle_object_model::parse_object;
use crate::models::player_model::PlayerModel;
use crate::models::player_model::PlayerStyle;
use crate::models::player_model::PlayerV;
use crate::models::player_model::format_player;
use crate::models::player_model::parse_player;
use crate::models::world_model::WorldModel;
use crate::models::world_model::WorldV;
use crate::models::world_model::format_world;
use crate::models::world_model::parse_world;
use crate::values::Coords;
use crate::values::Decimal;
use crate::values::Rgba;
use crate::values::Rotation;
use crate::values::Vector;

verus! {

/// The closed set of storage tables.
#[derive(Debug, Clone, Copy, PartialEq, Eq, Structural)]
pub enum DbTable {
    Lobbies,
    MoodleObjects,
    Players,
    Worlds,
}

/// The canonical lowercase display form of a table.
pub open spec fn table_name(t: DbTable) -> Seq<char> {
    match t {
        DbTable::Lobbies => "lobbies"@,
        DbTable::MoodleObjects => "moodle_objects"@,
        DbTable::Players => "players"@,
        DbTable::Worlds => "worlds"@,
    }
}

/// Whether `c` reads as the lowercase letter `lower` when letter case is
/// ignored: the same character, or its uppercase form.
pub open spec fn fold_eq(c: char, lower: char) -> bool {
    c == lower || ('a' <= lower && lower <= 'z' && c as int == lower as int - 32)
}

/// Whether `s` spells `name` when letter case is ignored.
pub open spec fn name_matches(s: Seq<char>, name: Seq<char>) -> bool {
    s.len() == name.len() && forall|i: int| 0 <= i < s.len() ==> fold_eq(s[i], #[trigger] name[i])
}

/// Compares `s` with a lowercase name, ignoring letter case in `s`.
fn matches_name(s: &str, name: &str) -> (r: bool)
    ensures
        r == name_matches(s@, name@),
{
    let sl = s.unicode_len();
    let nl = name.unicode_len();
    if sl != nl {
        return false;
    }
    let mut i: usize = 0;
    while i < sl
        invariant
            i <= sl,
            sl == s@.len(),
            sl == name@.len(),
            forall|j: int| 0 <= j < i ==> fold_eq(s@[j], #[trigger] name@[j]),
        decreases sl - i,
    {
        let c = s.get_char(i);
        let d = name.get_char(i);
        if c != d {
            if !('a' <= d && d <= 'z' && c as u32 == d as u32 - 32) {
                return false;
            }
        }
        i += 1;
    }
    true
}

/// No text resolves to two different tables: case-insensitive matching picks
/// at most one name.
pub proof fn lemma_table_match_unique(s: Seq<char>, t1: DbTable, t2: DbTable)
    requires
        name_matches(s, table_name(t1)),
        name_matches(s, table_name(t2)),
    ensures
        t1 == t2,
{
    reveal_strlit("lobbies");
    reveal_strlit("moodle_objects");
    reveal_strlit("players");
    reveal_strlit("worlds");
    assert(s.len() == table_name(t1).len());
    assert(s.len() == table_name(t2).len());
    if t1 != t2 {
        // every pair of distinct names differs in length, except the two
        // seven-letter ones, which no character can spell both of
        assert(fold_eq(s[0], table_name(t1)[0]));
        assert(fold_eq(s[0], table_name(t2)[0]));
        assert(false);
    }
}

/// The tagged union of every decoded payload shape.
#[derive(Debug, Clone, PartialEq, Eq)]
pub enum ModelType {
    Lobby(LobbyModel),
    MoodleObject(MoodleObjectModel),
    Player(PlayerModel),
    World(WorldModel),
}

/// The mathematical shape of a decoded payload.
#[verifier::ext_equal]
pub enum ModelTypeV {
    Lobby(LobbyV),
    MoodleObject(MoodleObjectV),
    Player(PlayerV),
    World(WorldV),
}

impl View for ModelType {
    type V = ModelTypeV;

    open spec fn view(&self) -> ModelTypeV {
        match self {
            ModelType::Lobby(l) => ModelTypeV::Lobby(l@),
            ModelType::MoodleObject(o) => ModelTypeV::MoodleObject(o@),
            ModelType::Player(p) => ModelTypeV::Player(p@),
            ModelType::World(w) => ModelTypeV::World(w@),
        }
    }
}

/// The table a payload belongs to, by its variant.
pub open spec fn table_of_model(m: ModelTypeV) -> DbTable {
    match m {
        ModelTypeV::Lobby(_) => DbTable::Lobbies,
        ModelTypeV::MoodleObject(_) => DbTable::MoodleObjects,
        ModelTypeV::Player(_) => DbTable::Players,
        ModelTypeV::World(_) => DbTable::Worlds,
    }
}

/// The text of a payload, by its own codec.
pub open spec fn format_model(m: ModelTypeV) -> Seq<char> {
    match m {
        ModelTypeV::Lobby(l) => format_lobby(l),
        ModelTypeV::MoodleObject(o) => format_object(o),
        ModelTypeV::Player(p) => format_player(p),
        ModelTypeV::World(w) => format_world(w),
    }
}

/// What a payload text decodes to under the codec of `table`.
pub open spec fn parse_model(table: DbTable, s: Seq<char>) -> Option<ModelTypeV> {
    match table {
        DbTable::Lobbies => match parse_lobby(s) {
            None => None,
            Some(l) => Some(ModelTypeV::Lobby(l)),
        },
        DbTable::MoodleObjects => match parse_object(s) {
            None => None,
            Some(o) => Some(ModelTypeV::MoodleObject(o)),
        },
        DbTable::Players => match parse_player(s) {
            None => None,
            Some(p) => Some(ModelTypeV::Player(p)),
        },
        DbTable::Worlds => match parse_world(s) {
            None => None,
            Some(w) => Some(ModelTypeV::World(w)),
        },
    }
}

/// Whether a payload's string fields can be carried by its own codec.
pub open spec fn model_carryable(m: ModelTypeV) -> bool {
    match m {
        ModelTypeV::Lobby(l) => crate::models::lobby_model::lobby_carryable(l),
        ModelTypeV::MoodleObject(o) => crate::models::moodle_object_model::object_wf(o),
        ModelTypeV::Player(p) => crate::models::player_model::player_carryable(p),
        ModelTypeV::World(w) => crate::models::world_model::world_wf(w),
    }
}

/// Decoding an encoded payload under its own table gives the payload back,
/// whatever its shape.
pub proof fn lemma_model_round_trip(m: ModelTypeV)
    requires
        model_carryable(m),
    ensures
        parse_model(table_of_model(m), format_model(m)) == Some(m),
{
    match m {
        ModelTypeV::Lobby(l) => {
            crate::models::lobby_model::lemma_lobby_round_trip(l);
        },
        ModelTypeV::MoodleObject(o) => {
            crate::models::moodle_object_model::lemma_object_round_trip(o);
        },
        ModelTypeV::Player(p) => {
            crate::models::player_model::lemma_player_round_trip(p);
        },
        ModelTypeV::World(w) => {
            crate::models::world_model::lemma_world_round_trip(w);
        },
    }
}

impl DbTable {
    /// The canonical lowercase text of the table.
    pub fn to_table_string(&self) -> (r: String)
        ensures
            r@ == table_name(*self),
    {
        match self {
            DbTable::Lobbies => "lobbies".to_owned(),
            DbTable::MoodleObjects => "moodle_objects".to_owned(),
            DbTable::Players => "players".to_owned(),
            DbTable::Worlds => "worlds".to_owned(),
        }
    }

    /// Resolves a table name, ignoring letter case; every text that spells no
    /// table name is refused.
    pub fn from_str(s: &str) -> (r: Result<DbTable, DatabaseError>)
        ensures
            match r {
                Ok(t) => name_matches(s@, table_name(t)),
                Err(e) => (forall|t: DbTable| !name_matches(s@, table_name(t))) && e
                    is IncorrectTableName,
            },
    {
        if matches_name(s, "lobbies") {
            return Ok(DbTable::Lobbies);
        }
        if matches_name(s, "moodle_objects") {
            return Ok(DbTable::MoodleObjects);
        }
        if matches_name(s, "players") {
            return Ok(DbTable::Players);
        }
        if matches_name(s, "worlds") {
            return Ok(DbTable::Worlds);
        }
        proof {
            assert forall|t: DbTable| !name_matches(s@, table_name(t)) by {
                match t {
                    DbTable::Lobbies => {
                    },
                    DbTable::MoodleObjects => {
                    },
                    DbTable::Players => {
                    },
                    DbTable::Worlds => {
                    },
                }
            }
        }
        Err(
            DatabaseError::IncorrectTableName(
                "the table name entered is incorrect".to_owned(),
            ),
        )
    }

    /// A placeholder payload of the table's shape, used only to pick a codec.
    pub fn get_model_type_with_dummy(&self) -> (r: ModelType)
        ensures
            table_of_model(r@) == *self,
    {
        match self {
            DbTable::Lobbies => ModelType::Lobby(LobbyModel::default()),
            DbTable::Worlds => ModelType::World(WorldModel::default()),
            DbTable::Players => ModelType::Player(PlayerModel::default()),
            DbTable::MoodleObjects => ModelType::MoodleObject(MoodleObjectModel::default()),
        }
    }

    /// The table a payload belongs to.
    pub fn from_model_type(model_type: &ModelType) -> (r: DbTable)
        ensures
            r == table_of_model(model_type@),
    {
        match model_type {
            ModelType::World(_) => DbTable::Worlds,
            ModelType::Player(_) => DbTable::Players,
            ModelType::Lobby(_) => DbTable::Lobbies,
            ModelType::MoodleObject(_) => DbTable::MoodleObjects,
        }
    }
}

impl ModelType {
    /// Encodes the payload with its own codec.
    pub fn to_model_string(&self) -> (r: String)
        ensures
            r@ == format_model(self@),
    {
        match self {
            ModelType::World(model) => model.to_string(),
            ModelType::Lobby(model) => model.to_string(),
            ModelType::MoodleObject(model) => model.to_string(),
            ModelType::Player(model) => model.to_string(),
        }
    }

    /// Decodes a payload text with the codec of `table`; any failure of the
    /// chosen codec is surfaced as a single parse-failure kind.
    pub fn from_model_str(string: &str, table: DbTable) -> (r: Result<ModelType, DatabaseError>)
        ensures
            match r {
                Ok(m) => parse_model(table, string@) == Some(m@) && table_of_model(m@) == table,
                Err(e) => parse_model(table, string@) is None && e is EntryCouldNotBeParsed,
            },
    {
        match table {
            DbTable::Lobbies => match LobbyModel::from_str(string) {
                Ok(model) => Ok(ModelType::Lobby(model)),
                Err(_) => Err(parse_failure("could not parse string to lobby model", string)),
            },
            DbTable::Worlds => match WorldModel::from_str(string) {
                Ok(model) => Ok(ModelType::World(model)),
                Err(_) => Err(parse_failure("could not parse string to world model", string)),
            },
            DbTable::Players => match PlayerModel::from_str(string) {
                Ok(model) => Ok(ModelType::Player(model)),
                Err(_) => Err(parse_failure("could not parse string to player model", string)),
            },
            DbTable::MoodleObjects => match MoodleObjectModel::from_str(string) {
                Ok(model) => Ok(
                    ModelType::MoodleObject(model),
                ),
                Err(_) => Err(
                    parse_failure("could not parse string to moodle object model", string),
                ),
            },
        }
    }
}

impl Default for Decimal {
    /// The zero numeral.
    fn default() -> (d: Decimal)
        ensures
            d@ =~= seq!['0'],
            d.wf(),
    {
        let d = Decimal { text: "0".to_owned() };
        proof {
            reveal_strlit("0");
            assert(d@ =~= seq!['0']);
        }
        d
    }
}

impl Default for Coords {
    /// The origin.
    fn default() -> (c: Coords)
        ensures
            c.wf(),
            c@.x =~= seq!['0'],
            c@.y =~= seq!['0'],
            c@.z =~= seq!['0'],
    {
        Coords { x: Decimal::default(), y: Decimal::default(), z: Decimal::default() }
    }
}

impl Default for MoodleObjectModel {
    /// An object at the origin with an empty link.
    fn default() -> (m: MoodleObjectModel)
        ensures
            m.wf(),
            m@.link =~= Seq::<char>::empty(),
    {
        MoodleObjectModel { coords: Coords::default(), link: String::new() }
    }
}

impl Default for WorldModel {
    /// An empty world of zero extent.
    fn default() -> (w: WorldModel)
        ensures
            w.wf(),
            w@.moodle_objects.len() == 0,
    {
        WorldModel {
            width: Decimal::default(),
            height: Decimal::default(),
            spawn_point: Coords::default(),
            moodle_objects: Vec::new(),
        }
    }
}

impl Default for PlayerModel {
    /// A nameless player at the origin, outside every lobby.
    fn default() -> (p: PlayerModel)
        ensures
            p@.username =~= Seq::<char>::empty(),
            p@.lobby_id is None,
            p@.objects.len() == 0,
    {
        PlayerModel {
            position: Vector { x: Decimal::default(), y: Decimal::default(), z: Decimal::default() },
            direction: Rotation { rad: Decimal::default() },
            style: PlayerStyle { color: Rgba { r: 0, g: 0, b: 0, a: 0 } },
            username: String::new(),
            lobby_id: None,
            objects_interacted_with: Vec::new(),
        }
    }
}

impl Default for LobbyModel {
    /// A nameless lobby around an empty world, with no players.
    fn default() -> (l: LobbyModel)
        ensures
            l@.name =~= Seq::<char>::empty(),
            l@.players.len() == 0,
    {
        LobbyModel { name: String::new(), world: WorldModel::default(), players: Vec::new() }
    }
}

} // verus!
