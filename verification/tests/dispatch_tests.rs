use exaworld_db_models::db_communication::EditEntry;
use exaworld_db_models::db_model_type::DbTable;
use exaworld_db_models::db_model_type::ModelType;
use exaworld_db_models::entry::Entry;
use exaworld_db_models::error::DatabaseError;
use exaworld_db_models::models::moodle_object_model::MoodleObjectModel;
use exaworld_db_models::values::Coords;
use exaworld_db_models::values::Decimal;

fn dec(t: &str) -> Decimal {
    Decimal { text: t.to_string() }
}

fn sample_object() -> MoodleObjectModel {
    MoodleObjectModel {
        coords: Coords { x: dec("1"), y: dec("2"), z: dec("3") },
        link: "door".to_string(),
    }
}

#[test]
fn table_names_are_lowercase() {
    assert_eq!(DbTable::Lobbies.to_table_string(), "lobbies");
    assert_eq!(DbTable::MoodleObjects.to_table_string(), "moodle_objects");
    assert_eq!(DbTable::Players.to_table_string(), "players");
    assert_eq!(DbTable::Worlds.to_table_string(), "worlds");
}

#[test]
fn table_reverse_parse_is_case_insensitive() {
    assert_eq!(DbTable::from_str("WORLDS").unwrap(), DbTable::Worlds);
    assert_eq!(DbTable::from_str("worlds").unwrap(), DbTable::Worlds);
    assert_eq!(DbTable::from_str("Worlds").unwrap(), DbTable::Worlds);
    assert_eq!(DbTable::from_str("LOBBIES").unwrap(), DbTable::Lobbies);
    assert_eq!(DbTable::from_str("Moodle_Objects").unwrap(), DbTable::MoodleObjects);
    assert_eq!(DbTable::from_str("players").unwrap(), DbTable::Players);
}

#[test]
fn unknown_table_name_is_refused() {
    let e = DbTable::from_str("planets").unwrap_err();
    assert!(matches!(e, DatabaseError::IncorrectTableName(_)));
    let e = DbTable::from_str("").unwrap_err();
    assert!(matches!(e, DatabaseError::IncorrectTableName(_)));
    let e = DbTable::from_str("worlds ").unwrap_err();
    assert!(matches!(e, DatabaseError::IncorrectTableName(_)));
}

#[test]
fn error_messages_name_the_source() {
    let e = DbTable::from_str("planets").unwrap_err();
    assert!(!e.message().is_empty());
    let e = ModelType::from_model_str("broken", DbTable::Worlds).unwrap_err();
    assert!(e.message().contains("broken"));
}

#[test]
fn dummy_payload_matches_table() {
    for table in [DbTable::Lobbies, DbTable::MoodleObjects, DbTable::Players, DbTable::Worlds] {
        let dummy = table.get_model_type_with_dummy();
        assert_eq!(DbTable::from_model_type(&dummy), table);
    }
}

#[test]
fn dispatch_decodes_by_table() {
    let m = ModelType::from_model_str("1,2,3#door", DbTable::MoodleObjects).unwrap();
    assert!(matches!(m, ModelType::MoodleObject(_)));
    let m = ModelType::from_model_str("1|2|0,0,0|", DbTable::Worlds).unwrap();
    assert!(matches!(m, ModelType::World(_)));
    let m = ModelType::from_model_str("ada!1:2:3!0.5!1,2,3,4!7!", DbTable::Players).unwrap();
    assert!(matches!(m, ModelType::Player(_)));
    let m = ModelType::from_model_str("hall$1|2|0,0,0|$", DbTable::Lobbies).unwrap();
    assert!(matches!(m, ModelType::Lobby(_)));
}

#[test]
fn dispatch_wraps_codec_failures() {
    let e = ModelType::from_model_str("not a world", DbTable::Worlds).unwrap_err();
    assert!(matches!(e, DatabaseError::EntryCouldNotBeParsed(_)));
    let e = ModelType::from_model_str("1|2|0,0,0|", DbTable::Players).unwrap_err();
    assert!(matches!(e, DatabaseError::EntryCouldNotBeParsed(_)));
}

#[test]
fn dispatch_round_trip_through_model_string() {
    let m = ModelType::MoodleObject(sample_object());
    let text = m.to_model_string();
    let back = ModelType::from_model_str(&text, DbTable::MoodleObjects).unwrap();
    assert_eq!(back, m);
}

#[test]
fn entry_row_text_has_four_fields() {
    let e = Entry {
        id: 42,
        timestamp_added: 1700000000123,
        timestamp_changed: 1700000000456,
        model_type: ModelType::MoodleObject(sample_object()),
    };
    assert_eq!(e.to_data_row_string(), "42;1700000000123;1700000000456;1,2,3#door");
}

#[test]
fn entry_row_zero_values() {
    let e = Entry {
        id: 0,
        timestamp_added: 0,
        timestamp_changed: 0,
        model_type: ModelType::MoodleObject(sample_object()),
    };
    assert_eq!(e.to_data_row_string(), "0;0;0;1,2,3#door");
}

#[test]
fn edit_entry_carries_id_and_payload() {
    let edit = EditEntry { id: 5, model_type: ModelType::MoodleObject(sample_object()) };
    assert_eq!(edit.id, 5);
    assert_eq!(edit.model_type.to_model_string(), "1,2,3#door");
}

#[test]
fn default_payloads_encode() {
    assert_eq!(MoodleObjectModel::default().to_string(), "0,0,0#");
    let w = exaworld_db_models::models::world_model::WorldModel::default();
    assert_eq!(w.to_string(), "0|0|0,0,0|");
    let p = exaworld_db_models::models::player_model::PlayerModel::default();
    assert_eq!(p.to_string(), "!0:0:0!0!0,0,0,0!!");
    let l = exaworld_db_models::models::lobby_model::LobbyModel::default();
    assert_eq!(l.to_string(), "$0|0|0,0,0|$");
}
