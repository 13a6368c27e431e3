pub mod binary32;
pub mod capacity;
pub mod profile;
pub mod status;
