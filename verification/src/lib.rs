//! Locating, naming and listing the Chrome for Testing builds (Chrome,
//! ChromeDriver and Chrome Headless Shell) that the command-line tool installs.

pub mod text;
pub mod parse_install;
pub mod sys;
pub mod unixs;
pub mod table;
pub mod extraction;
pub mod list;
pub mod downloadable;
pub mod commands;
