//! Crash capture for Linux processes: the verified core of a minidump
//! writer. It parses the process tables a dumper reads (memory maps,
//! auxiliary vector, thread status), identifies modules by their ELF
//! build-id, decides which threads and stack bytes go into a dump, sanitizes
//! stacks, and lays out the dump file. Page allocation is modelled as an
//! arena of blocks; the kernel calls themselves are left to the caller.

pub mod elf;
pub mod error;
pub mod file_writer;
pub mod fixed_str;
pub mod handler;
pub mod line_reader;
pub mod mapping;
pub mod minidump;
pub mod minidump_writer;
pub mod page_allocator;
pub mod page_vec;
pub mod ptrace_dumper;
pub mod sanitize;
pub mod text;
pub mod thread_info;
