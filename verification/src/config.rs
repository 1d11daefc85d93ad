//! Process configuration: the chat platform token and the database path.
//!
//! Reading a configuration file is I/O and lives outside this library; these
//! types only carry the values once they have been read.

use vstd::prelude::*;

verus! {

/// Configuration of the whole application.
#[derive(Clone, Debug)]
pub struct AppConfig {
    pub telegram: Telegram,
    pub database: Database,
}

/// Chat platform settings.
#[derive(Clone, Debug)]
pub struct Telegram {
    pub token: String,
}

/// Storage settings.
#[derive(Clone, Debug)]
pub struct Database {
    pub path: String,
}

} // verus!
