pub mod buffer;
pub mod cursor;
pub mod session;
pub mod text;
