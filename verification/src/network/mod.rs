pub mod messages;
pub mod serialization;
