pub mod text;
pub mod num;
pub mod meta;
pub mod numbers;
pub mod workspace;
pub mod outputs;
pub mod sets;
pub mod wmcmd;
pub mod nav;
pub mod stepping;
pub mod session;
pub mod cli;
pub mod command;
pub mod polybar;
pub mod menu;
pub mod doctor;
pub mod checks;
pub mod config;
