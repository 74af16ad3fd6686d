//! Recording of shell command runs and comparison of their outputs over time.
pub mod text;
pub mod storage;
pub mod fuzzy_matcher;
pub mod short_code;
pub mod i18n_table;
pub mod i18n;
pub mod config;
pub mod time_order;
pub mod calendar;
pub mod path;
pub mod words;
pub mod numbers;
pub mod store_manager;
pub mod executor;
pub mod cli;
pub mod differ;
pub mod preview;
pub mod textdiff;
pub mod selection;
pub mod groups;
pub mod tui;
pub mod picker;
pub mod bash_parser;
pub mod render;
pub mod help;
