pub mod error;
pub mod pipeline;
pub mod request;
