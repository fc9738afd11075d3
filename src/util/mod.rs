pub mod decimal;
pub mod hex;
pub mod text;
pub mod time;
