pub mod text;
pub mod cursor;
pub mod keys;
pub mod input;
pub mod strutil;
pub mod log_view;
pub mod viewport;
pub mod markdown;
pub mod stream;
pub mod thinking;
pub mod agent;
pub mod sandbox;
pub mod session;
pub mod messages;
pub mod modes;
pub mod wrap;
pub mod highlight;
pub mod transcript;
