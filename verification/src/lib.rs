pub mod board;
pub mod boardgenerator;
pub mod boardlogic;
pub mod settings;
