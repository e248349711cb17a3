//! Rules of a PDF-to-image converter.

pub mod calendar;
pub mod config;
pub mod converter;
pub mod drawing;
pub mod encode;
pub mod error;
pub mod gui;
pub mod imaging;
pub mod mirror;
pub mod path;
pub mod plain;
pub mod render;
pub mod report;
pub mod size;
pub mod svg;
pub mod text;
pub mod tui;
pub mod updater;
pub mod worker;
pub mod xml;
