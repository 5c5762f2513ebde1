pub mod configuration;
pub mod error;
pub mod setting;
pub mod laws;
pub mod locate;
pub mod roundtrip;
