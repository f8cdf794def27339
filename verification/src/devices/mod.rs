pub mod platform;
