pub mod lobby_model;
pub mod moodle_object_model;
pub mod player_model;
pub mod world_model;
