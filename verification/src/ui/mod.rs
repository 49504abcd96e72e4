pub mod chatting;
pub mod portrait_preferences;
pub mod screens;
