//! Market data management and technical indicators for trading bars.

pub mod indicator;
pub mod market;
pub mod time;
pub mod frame;
pub mod text;
pub mod data_file_bar;
pub mod manager;
