//! The core of a Telegram client for the terminal in the style of irssi.
//!
//! The client is a state (`app::App`) with a model (`app::AppView`). Keys, messages
//! and answers change the state; each step says what the model becomes and what is
//! asked next of the outside world (`action::Action`). What is drawn is computed as
//! pieces of coloured text (`ui::Screen`).
pub mod action;
pub mod app;
pub mod bar;
pub mod chats;
pub mod clock;
pub mod command;
pub mod complete;
pub mod dispatch;
pub mod event;
pub mod history;
pub mod input;
pub mod laws;
pub mod order;
pub mod pane;
pub mod peer;
pub mod reply;
pub mod roster;
pub mod session;
pub mod style;
pub mod text;
pub mod theme;
pub mod ui;
