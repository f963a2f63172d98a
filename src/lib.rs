//! Turns decoded game-database tables into Lua table-literal scripts.

pub mod config;
pub mod conflict;
pub mod decimal;
pub mod log;
pub mod lua_writer;
pub mod manifest;
pub mod rpfm;
pub mod tw_db_pp;
pub mod util;
pub mod wh2_lua_error;
