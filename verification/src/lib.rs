//! A read-only decoder for ELF relocatable object files.
//!
//! A byte buffer is decoded into a file header, an ordered section list
//! with resolved names and payloads, a symbol table and the relocation
//! entries of every `SHT_RELA` section. Every decoder states its result
//! as a function of the input bytes and never panics.

pub mod byte_reader;
pub mod bytes;
pub mod elf;
pub mod error;
pub mod section;
pub mod types;
