//! Structured views of the text that an Android device reports over ADB.
pub mod text;
pub mod numbers;
pub mod logcat;
pub mod encoding;
pub mod adb;
pub mod state;
pub mod mcp;
pub mod screen;
pub mod input;
