//! A bounded author/review coding-agent loop: its decisions, texts and records.
pub mod text;
pub mod numbers;
pub mod ordered;
pub mod json;
pub mod json_codec;
pub mod toml_doc;
pub mod std_text;
pub mod shell;
pub mod path_text;
pub mod schema;
pub mod usage;
pub mod summary;
pub mod tools;
pub mod model;
pub mod agent;
pub mod chat_template;
pub mod logging;
pub mod telemetry;
pub mod paths;
pub mod cli;
pub mod observer;
pub mod loop_runner;
