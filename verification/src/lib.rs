pub mod apps;
pub mod arguments;
pub mod binary64;
pub mod call;
pub mod capture;
pub mod client;
pub mod compositor;
pub mod daemon;
pub mod deadline;
pub mod element;
pub mod engine;
pub mod fault;
pub mod input;
pub mod json;
pub mod keymap;
pub mod kwin;
pub mod order;
pub mod outcome;
pub mod process;
pub mod resolve;
pub mod rpc;
pub mod run;
pub mod session;
pub mod text;
pub mod tools;
pub mod tree;
