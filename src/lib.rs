//! Core of a group-chat event scheduling bot: event rendering, the per-user
//! creation dialogue, the event and attendance store, and the dispatcher that
//! turns incoming commands and button presses into store changes and replies.

pub mod markdown;
pub mod text;
pub mod decimal;
pub mod event;
pub mod store;
pub mod datetime;
pub mod drafts;
pub mod dispatch;
