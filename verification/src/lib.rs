use vstd::prelude::*;

pub mod dec;
pub mod text;
pub mod models;
pub mod listing;
pub mod tagger;
pub mod alerter;
pub mod forecast;
pub mod client;
pub mod config;
pub mod output;
pub mod summary;
pub mod commands;
pub mod ui;
pub mod refresh;
pub mod report;
pub mod txn_view;
pub mod alert_commands;
pub mod forecast_view;
pub mod tag_commands;
pub mod summary_view;
pub mod account_commands;
pub mod doctor;
pub mod callback;
pub mod jwt;
pub mod account_view;
pub mod grouping;
pub mod prompt;

verus! {

} // verus!
