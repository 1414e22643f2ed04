pub mod commands;
pub mod config;
pub mod config_walker;
pub mod current_env;
pub mod shell;
pub mod strutil;
pub mod var_map;
