//! Core logic of a PostgreSQL backup tool: ordering of tables for a dump,
//! dependency chains between tables, an insertion-ordered map for dump
//! output, the settings, compression, and the choices made on the answers
//! of the storage service.

pub mod compression;
pub mod db;
pub mod drive;
pub mod errors;
pub mod numbers;
pub mod ordered_map;
pub mod settings;
pub mod sort;
pub mod stamp;
pub mod text;

pub use errors::{Errors, Res};

use vstd::prelude::*;

verus! {

/// What a database connection is configured with.
pub trait DbConfig {
    fn db_host(&self) -> &String;

    fn db_port(&self) -> u16;

    fn db_username(&self) -> &String;

    fn db_password(&self) -> &String;

    fn db_name(&self) -> &String;
}

/// Something that can be compressed at a given level.
pub trait Compression {
    type Out;

    fn compress(&self, level: i32) -> Self::Out;
}

/// Something that can be rebuilt from a compressed input.
pub trait Decompression<I> {
    fn decompress(input: &I) -> Res<Box<Self>>;
}

} // verus!
