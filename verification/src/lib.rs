//! Core of an HTTP API client: request model, variables, URL building,
//! response-body processing and the state rules of the workspace.
pub mod body;
pub mod calendar;
pub mod float;
pub mod form_table;
pub mod format;
pub mod http;
pub mod json;
pub mod kv_table;
pub mod labels;
pub mod laws;
pub mod lists;
pub mod model;
pub mod names;
pub mod ops;
pub mod panes;
pub mod postman_env;
pub mod request_tab;
pub mod response;
pub mod saved_filter;
pub mod stamps;
pub mod store;
pub mod strings;
pub mod templates;
pub mod update;
pub mod url;
pub mod variables;
pub mod vars;
pub mod workspace;
