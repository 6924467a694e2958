pub mod login;
pub mod room;
pub mod sync;
