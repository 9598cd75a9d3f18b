//! The decisions of a Warframe companion, apart from the machinery that carries them out.
//!
//! The modules hold what the companion works out: where the game keeps its log and how much of it
//! to read, which rewards a fissure can drop and which cards are on screen, what to tell the
//! warframe.market account, and which prices to keep. Every function here takes plain values and
//! gives plain values back; reading files, drawing windows and talking to servers is left to the
//! caller.
//!
//! The modules whose names end in `laws` say of each operation what it can return and how that
//! relates to what it was given.

pub mod account_laws;
pub mod bytes;
pub mod game_laws;
pub mod game_log;
pub mod generation;
pub mod keyed;
pub mod log_places;
pub mod market;
pub mod monitor;
pub mod path;
pub mod poller;
pub mod presence;
pub mod price_laws;
pub mod price_table;
pub mod prices;
pub mod refresh;
pub mod relic_pool;
pub mod report;
pub mod reward_choices;
pub mod reward_laws;
pub mod reward_publish;
pub mod reward_session;
pub mod setup;
pub mod text;
pub mod windows_path;
