pub mod filesize;
pub mod listing;
pub mod names;
pub mod network;
pub mod permissions;
pub mod stream;
pub mod text;
pub mod timestamp;
pub mod user;
