pub mod status;
pub mod json;
pub mod input;
pub mod plan;
pub mod dag;
pub mod graph;
pub mod select;
pub mod edit;
pub mod error;
pub mod context;
pub mod engine;
pub mod template;
pub mod transform;
pub mod services;
pub mod codec;
