pub mod pp;
