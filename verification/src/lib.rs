pub mod codec;
pub mod convert;
pub mod html;
pub mod json;
pub mod models;
pub mod store;
pub mod text;
