pub mod text;
pub mod url;
pub mod error;
pub mod http;
pub mod attribute;
pub mod dom;
pub mod token;
pub mod parser;
pub mod utils;
pub mod browser;
pub mod net;
