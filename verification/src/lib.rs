//! HunMing, a cross-platform alias manager for Bash, Zsh and PowerShell: the
//! alias model and its validation, the generated shell scripts, the managed
//! blocks in shell profiles, the plans of the commands, the checks of
//! `doctor`, and the state of the interactive browser.
pub mod text;
pub mod model;
pub mod error;
pub mod validation;
pub mod render;
pub mod block;
pub mod paths;
pub mod listing;
pub mod install;
pub mod doctor;
pub mod config;
pub mod tui;
pub mod cli;
