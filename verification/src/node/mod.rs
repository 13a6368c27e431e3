pub mod registry;
pub mod state;
