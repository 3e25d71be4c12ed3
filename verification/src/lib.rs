pub mod agent_laws;
pub mod agent_loop;
pub mod calls;
pub mod catalog;
pub mod conversation;
pub mod decimal;
pub mod dialect;
pub mod engine;
pub mod filter;
pub mod gemma4;
pub mod hardware;
pub mod hf;
pub mod init_project;
pub mod json;
pub mod keyed;
pub mod local_calls;
pub mod local_models;
pub mod local_turn;
pub mod logging;
pub mod messages;
pub mod mode;
pub mod order;
pub mod places;
pub mod prompt;
pub mod ranking;
pub mod reply;
pub mod scan;
pub mod search;
pub mod session;
pub mod state;
pub mod store;
pub mod stream;
pub mod text;
pub mod todos;
pub mod tool_files;
pub mod tool_run;
pub mod tools;
pub mod watcher;
pub mod workspace;
