pub mod block;
pub mod chunk;
pub mod codec;
pub mod decoder;
