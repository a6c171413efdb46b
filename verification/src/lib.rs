pub mod chars;
pub mod html;
pub mod json;
pub mod layout;
pub mod media;
pub mod numbers;
pub mod pipeline;
pub mod sanitize;
pub mod table;
pub mod text;
pub mod urls;
