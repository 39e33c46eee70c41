pub mod app;
pub mod cli;
pub mod crypto;
pub mod import;
pub mod storage;
pub mod text;
pub mod ui;
pub mod update;
