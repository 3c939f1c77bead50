use exaworld_db_models::db_model_type::DbTable;
use exaworld_db_models::db_model_type::ModelType;
use exaworld_db_models::error::DatabaseError;
use exaworld_db_models::models::lobby_model::LobbyModel;
use exaworld_db_models::models::lobby_model::LobbyPlayerModel;
use exaworld_db_models::models::moodle_object_model::MoodleObjectModel;
use exaworld_db_models::models::player_model::PlayerModel;
use exaworld_db_models::models::player_model::PlayerStyle;
use exaworld_db_models::models::world_model::WorldModel;
use exaworld_db_models::values::Coords;
use exaworld_db_models::values::Decimal;
use exaworld_db_models::values::Rgba;
use exaworld_db_models::values::Rotation;
use exaworld_db_models::values::Vector;

fn dec(t: &str) -> Decimal {
    Decimal { text: t.to_string() }
}

fn coords(x: &str, y: &str, z: &str) -> Coords {
    Coords { x: dec(x), y: dec(y), z: dec(z) }
}

fn sample_object() -> MoodleObjectModel {
    MoodleObjectModel { coords: coords("1", "2.5", "-3"), link: "https://example.org/a".to_string() }
}

fn sample_player() -> PlayerModel {
    PlayerModel {
        position: Vector { x: dec("1"), y: dec("2"), z: dec("3.5") },
        direction: Rotation { rad: dec("0.25") },
        style: PlayerStyle { color: Rgba { r: 1, g: 2, b: 3, a: 255 } },
        username: "ada".to_string(),
        lobby_id: Some(7),
        objects_interacted_with: vec![sample_object()],
    }
}

fn sample_world() -> WorldModel {
    WorldModel {
        width: dec("10"),
        height: dec("20.5"),
        spawn_point: coords("0", "0", "0"),
        moodle_objects: vec![sample_object(), MoodleObjectModel {
            coords: coords("4", "5", "6"),
            link: "door".to_string(),
        }],
    }
}

#[test]
fn object_round_trip() {
    let m = sample_object();
    let text = m.to_string();
    assert_eq!(text, "1,2.5,-3#https://example.org/a");
    let back = MoodleObjectModel::from_str(&text).unwrap();
    assert_eq!(back, m);
}

#[test]
fn object_wrong_arity_fails() {
    let e = MoodleObjectModel::from_str("1,2,3#a#b").unwrap_err();
    assert!(matches!(e, DatabaseError::EntryCouldNotBeParsed(_)));
    let e = MoodleObjectModel::from_str("1,2,3").unwrap_err();
    assert!(matches!(e, DatabaseError::EntryCouldNotBeParsed(_)));
}

#[test]
fn object_bad_coords_fails() {
    let e = MoodleObjectModel::from_str("1,x,3#a").unwrap_err();
    assert!(matches!(e, DatabaseError::EntryCouldNotBeParsed(_)));
}

#[test]
fn world_round_trip_with_objects() {
    let w = sample_world();
    let text = w.to_string();
    assert_eq!(text, "10|20.5|0,0,0|1,2.5,-3#https://example.org/a~4,5,6#door");
    let back = WorldModel::from_str(&text).unwrap();
    assert_eq!(back, w);
}

#[test]
fn world_concrete_empty_object_list() {
    let w = WorldModel::from_str("1|2|0,0,0|").unwrap();
    assert_eq!(w.width.text, "1");
    assert_eq!(w.height.text, "2");
    assert_eq!(w.width.text.parse::<f32>().unwrap(), 1.0);
    assert_eq!(w.height.text.parse::<f32>().unwrap(), 2.0);
    assert_eq!(w.spawn_point, coords("0", "0", "0"));
    assert!(w.moodle_objects.is_empty());
}

#[test]
fn world_trailing_empty_segment_skipped() {
    let with_objects = "1|2|0,0,0|3,4,5#door";
    let with_trailing = "1|2|0,0,0|3,4,5#door~";
    let a = WorldModel::from_str(with_objects).unwrap();
    let b = WorldModel::from_str(with_trailing).unwrap();
    assert_eq!(a.moodle_objects.len(), 1);
    assert_eq!(a, b);
    let doubled = WorldModel::from_str("1|2|0,0,0|3,4,5#door~~6,7,8#gate").unwrap();
    assert_eq!(doubled.moodle_objects.len(), 2);
}

#[test]
fn world_wrong_arity_fails() {
    let e = WorldModel::from_str("1|2|0,0,0").unwrap_err();
    assert!(matches!(e, DatabaseError::EntryCouldNotBeParsed(_)));
    let e = WorldModel::from_str("1|2|0,0,0||").unwrap_err();
    assert!(matches!(e, DatabaseError::EntryCouldNotBeParsed(_)));
}

#[test]
fn world_bad_width_fails() {
    let e = WorldModel::from_str("w|2|0,0,0|").unwrap_err();
    assert!(matches!(e, DatabaseError::EntryCouldNotBeParsed(_)));
    let e = WorldModel::from_str("1|h|0,0,0|").unwrap_err();
    assert!(matches!(e, DatabaseError::EntryCouldNotBeParsed(_)));
}

#[test]
fn world_bad_object_fails() {
    let e = WorldModel::from_str("1|2|0,0,0|nosep").unwrap_err();
    assert!(matches!(e, DatabaseError::EntryCouldNotBeParsed(_)));
}

#[test]
fn player_round_trip() {
    let p = sample_player();
    let text = p.to_string();
    assert_eq!(text, "ada!1:2:3.5!0.25!1,2,3,255!7!1,2.5,-3#https://example.org/a");
    let back = PlayerModel::from_str(&text).unwrap();
    assert_eq!(back, p);
}

#[test]
fn player_without_lobby_round_trip() {
    let mut p = sample_player();
    p.lobby_id = None;
    p.objects_interacted_with = vec![];
    let text = p.to_string();
    assert_eq!(text, "ada!1:2:3.5!0.25!1,2,3,255!!");
    let back = PlayerModel::from_str(&text).unwrap();
    assert_eq!(back, p);
}

#[test]
fn player_non_numeric_lobby_is_none() {
    let p = PlayerModel::from_str("ada!1:2:3!0.5!1,2,3,4!oops!").unwrap();
    assert_eq!(p.lobby_id, None);
    let p = PlayerModel::from_str("ada!1:2:3!0.5!1,2,3,4!12x!").unwrap();
    assert_eq!(p.lobby_id, None);
    let p = PlayerModel::from_str("ada!1:2:3!0.5!1,2,3,4!12!").unwrap();
    assert_eq!(p.lobby_id, Some(12));
}

#[test]
fn player_huge_lobby_id_is_none() {
    let p = PlayerModel::from_str("ada!1:2:3!0.5!1,2,3,4!18446744073709551616!").unwrap();
    assert_eq!(p.lobby_id, None);
    let p = PlayerModel::from_str("ada!1:2:3!0.5!1,2,3,4!18446744073709551615!").unwrap();
    assert_eq!(p.lobby_id, Some(u64::MAX));
}

#[test]
fn player_wrong_arity_fails() {
    let e = PlayerModel::from_str("ada!1:2:3!0.5!1,2,3,4!7").unwrap_err();
    assert!(matches!(e, DatabaseError::EntryCouldNotBeParsed(_)));
}

#[test]
fn player_bad_position_fails() {
    let e = PlayerModel::from_str("ada!1:2!0.5!1,2,3,4!7!").unwrap_err();
    assert!(matches!(e, DatabaseError::EntryCouldNotBeParsed(_)));
    let e = PlayerModel::from_str("ada!1:b:3!0.5!1,2,3,4!7!").unwrap_err();
    assert!(matches!(e, DatabaseError::EntryCouldNotBeParsed(_)));
}

#[test]
fn player_bad_style_fails() {
    let e = PlayerModel::from_str("ada!1:2:3!0.5!1,2,3!7!").unwrap_err();
    assert!(matches!(e, DatabaseError::EntryCouldNotBeParsed(_)));
    let e = PlayerModel::from_str("ada!1:2:3!0.5!256,2,3,4!7!").unwrap_err();
    assert!(matches!(e, DatabaseError::EntryCouldNotBeParsed(_)));
}

#[test]
fn player_empty_object_segments_skipped() {
    let p = PlayerModel::from_str("ada!1:2:3!0.5!1,2,3,4!7!^^").unwrap();
    assert!(p.objects_interacted_with.is_empty());
}

#[test]
fn style_round_trip() {
    let st = PlayerStyle { color: Rgba { r: 255, g: 0, b: 10, a: 1 } };
    let text = st.to_string();
    assert_eq!(text, "255,0,10,1");
    let back = PlayerStyle::from_str(&text).unwrap();
    assert_eq!(back, st);
}

#[test]
fn lobby_round_trip() {
    let l = LobbyModel {
        name: "main hall".to_string(),
        world: sample_world(),
        players: vec![
            LobbyPlayerModel { id: 1, model: sample_player() },
            LobbyPlayerModel {
                id: 2,
                model: PlayerModel {
                    lobby_id: None,
                    objects_interacted_with: vec![],
                    username: "bob".to_string(),
                    ..sample_player()
                },
            },
        ],
    };
    let text = l.to_string();
    let back = LobbyModel::from_str(&text).unwrap();
    assert_eq!(back, l);
}

#[test]
fn lobby_wrong_arity_fails() {
    let e = LobbyModel::from_str("name|world").unwrap_err();
    assert!(matches!(e, DatabaseError::EntryCouldNotBeParsed(_)));
    let e = LobbyModel::from_str("a$1|2|0,0,0|").unwrap_err();
    assert!(matches!(e, DatabaseError::EntryCouldNotBeParsed(_)));
}

#[test]
fn lobby_empty_player_segments_skipped() {
    let l = LobbyModel::from_str("hall$1|2|0,0,0|$%%").unwrap();
    assert!(l.players.is_empty());
}

#[test]
fn lobby_player_record_round_trip() {
    let lp = LobbyPlayerModel { id: 9, model: sample_player() };
    let text = lp.to_string();
    let back = LobbyPlayerModel::from_str(&text).unwrap();
    assert_eq!(back, lp);
}

#[test]
fn lobby_player_bad_id_fails() {
    let player_text = sample_player().to_string();
    let e = LobbyPlayerModel::from_str(&format!("x9@{}", player_text)).unwrap_err();
    assert!(matches!(e, DatabaseError::EntryCouldNotBeParsed(_)));
}

#[test]
fn decimal_accepts_and_refuses() {
    assert!(Decimal::new("0".to_string()).is_ok());
    assert!(Decimal::new("-12.75".to_string()).is_ok());
    assert!(Decimal::new("007".to_string()).is_ok());
    assert!(Decimal::new("".to_string()).is_err());
    assert!(Decimal::new("-".to_string()).is_err());
    assert!(Decimal::new("1.".to_string()).is_err());
    assert!(Decimal::new(".5".to_string()).is_err());
    assert!(Decimal::new("1.2.3".to_string()).is_err());
    assert!(Decimal::new("1e5".to_string()).is_err());
}

#[test]
fn coords_round_trip() {
    let c = coords("-1.5", "0", "42");
    let text = c.to_string();
    assert_eq!(text, "-1.5,0,42");
    let back = Coords::from_str(&text).unwrap();
    assert_eq!(back, c);
    assert!(Coords::from_str("1,2").is_err());
    assert!(Coords::from_str("1,2,c").is_err());
}
