pub mod add_break_blocks;
pub mod chunk_queue;
pub mod geometry;
pub mod traversal;
