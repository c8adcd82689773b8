//! Incremental analysis of MPEG transport streams.
//!
//! The library offers three independent engines, each advanced only by
//! explicit `write` calls on packet-aligned byte buffers:
//! a stream model builder that assembles the PAT/PMT program tree
//! ([`streammodel`]), a PES reassembler filtered by PID and stream id
//! ([`pesextractor`]), and a per-PID statistics collector
//! ([`streamstatistics`]). They share the packet framer ([`packet`]),
//! the PSI section assembler ([`section`]) and the table parsers ([`psi`]).

pub mod crc;
pub mod packet;
pub mod section;
pub mod psi;
pub mod streammodel;
pub mod pesextractor;
pub mod streamstatistics;
