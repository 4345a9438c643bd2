pub mod json;
pub mod text;
pub mod protocol;
pub mod llm;
pub mod memory;
pub mod agent;
pub mod bus;
pub mod assoc;
pub mod state;
pub mod budget;
pub mod plugin;
pub mod workflow;
pub mod dag;
pub mod template;
pub mod scheduler;
pub mod cli;
pub mod render;
pub mod system_tools;
