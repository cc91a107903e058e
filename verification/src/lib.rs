//! A small football-league toolkit: it models a season's cached match
//! results, folds finished matches into per-team goal totals, stores user
//! predictions ("tips") under composite keys, and renders a day-by-player
//! tip grid. File and network transfer live outside this crate; every
//! function here works on plain values and carries a proved contract.

pub mod cli;
pub mod errors;
pub mod goals;
pub mod grid;
pub mod json_calls;
pub mod jv;
pub mod season;
pub mod text;
pub mod tips;
