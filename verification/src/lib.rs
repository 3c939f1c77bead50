//! A verified textual serialization layer for game-domain records.
//!
//! Worlds, lobbies, players and interactable objects are encoded as flat
//! delimiter-separated strings for storage as rows in a simple record store,
//! and decoded back, all-or-nothing, with strict field-count checks. A fixed
//! separator scheme gives every nesting level its own delimiter token. The
//! dispatch layer maps a logical table identifier to the right codec.
//!
//! Every codec carries a contract tying it to a mathematical parse or format
//! function over character sequences, and round-trip laws prove that
//! decoding an encoded payload gives the payload back whenever its string
//! fields are free of the separator tokens at their own or a shallower
//! nesting level.
pub mod db_communication;
pub mod db_model_type;
pub mod entry;
pub mod error;
pub mod models;
pub mod text;
pub mod values;
