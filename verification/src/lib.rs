pub mod access;
pub mod assemble;
pub mod chats;
pub mod directory;
pub mod normalize;
pub mod resolve;
pub mod stats;
pub mod timestamp;
pub mod types;
