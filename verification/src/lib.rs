pub mod text;
pub mod ranking;
pub mod rag;
pub mod llm;
pub mod subscription;
pub mod receipt;
pub mod db;
