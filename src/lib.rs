//! A small content-addressable object store: blobs, trees and commits are
//! framed in a canonical byte layout, addressed by the SHA-1 digest of that
//! layout and kept zlib-compressed; a staging index lists the blobs that go
//! into the next tree.
pub mod address;
pub mod decimal;
pub mod digest;
pub mod error;
pub mod index;
pub mod input;
pub mod layout;
pub mod object;
pub mod order;
pub mod repository;
pub mod tree;
