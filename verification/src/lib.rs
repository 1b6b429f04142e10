pub mod text;
pub mod span;
pub mod environment;
pub mod value;
pub mod load;
pub mod merge;
pub mod merge_laws;
pub mod plan;
pub mod parse_env;
pub mod env_laws;
pub mod load_env;
pub mod load_file;
pub mod load_http;
pub mod parse_json;
pub mod source;
pub mod source_parse;
pub mod source_text;
pub mod source_laws;
pub mod parse_toml;
pub mod parse_yaml;
pub mod located_laws;
pub mod content_laws;
