pub mod eapp;
pub mod ipod4g;
pub mod ipod4g_bus;
