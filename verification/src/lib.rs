pub mod canon;
pub mod codec;
pub mod edit;
pub mod handler;
pub mod formatting;
pub mod transform;
pub mod json;
pub mod store;
