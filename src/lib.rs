pub mod drive;
pub mod message;
pub mod packet;
pub mod reader;
pub mod varint;
