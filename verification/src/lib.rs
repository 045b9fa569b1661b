pub mod state;
pub mod controller;
pub mod parse;
pub mod draw;
pub mod msg;
pub mod contract;
pub mod laws;
