mod bytes;
pub mod compat;
pub mod compat_laws;
pub mod config;
pub mod config_laws;
pub mod crs;
pub mod engine;
pub mod http;
pub mod http_laws;
pub mod import_crs;
pub mod import_laws;
pub mod number;
pub mod ordered;
pub mod proxy;
pub mod proxy_laws;
pub mod ruleset;
pub mod secrule_parser;
pub mod snapshot;
pub mod text;
pub mod text_laws;
pub mod wasm;
