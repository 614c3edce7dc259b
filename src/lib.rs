pub mod bridge;
pub mod protocol;
pub mod heap;
pub mod decode;
pub mod matches;
pub mod driver;
pub mod config;
