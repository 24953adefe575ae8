pub mod config;
pub mod dispatch;
pub mod jsontext;
pub mod jsonwalk;
pub mod response;
pub mod upload;
