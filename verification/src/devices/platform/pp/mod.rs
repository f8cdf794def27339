pub mod eide;
