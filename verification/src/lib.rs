//! Mercury: the request, header, variable and response logic of a file-based
//! API client, with its behaviour stated as Verus contracts.

pub mod text;
pub mod model;
pub mod kv;
pub mod curl;
pub mod curl_parser;
pub mod vars;
pub mod http;
pub mod error;
pub mod icons;
pub mod theme;
pub mod display;
pub mod components;
pub mod http_parser;
pub mod env_parser;
pub mod constants;
pub mod request_executor;
pub mod import;
pub mod ui;
pub mod workspace;
pub mod postman_importer;
pub mod highlight;
pub mod utils;
pub mod insomnia_importer;
pub mod query_sync;
pub mod env_readback;
