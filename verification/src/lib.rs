pub mod account_arg;
pub mod flag_arg;
pub mod laws;
pub mod message_arg;
pub mod template_arg;
pub mod text;
pub mod tui;
