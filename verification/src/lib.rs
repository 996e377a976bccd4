//! A minimal content-addressable object store in the style of a
//! version-control repository: hash-identified objects (blobs, trees,
//! commits) serialized to a canonical binary form, stored compressed under
//! their digest, with a lock-protected mutable HEAD pointer.

pub mod author;
pub mod bytebuf;
pub mod database;
pub mod hex;
pub mod lexorder;
pub mod lockfile;
pub mod numfmt;
pub mod object;
pub mod refs;
pub mod workspace;
