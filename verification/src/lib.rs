pub mod detection;
pub mod installation;
pub mod paths;
pub mod release;
pub mod resolution;
pub mod settings;
pub mod software;
pub mod storage;
pub mod text;
pub mod template;
pub mod tree;
pub mod types;
