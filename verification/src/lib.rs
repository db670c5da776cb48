//! A topology generator and annotated graph-document codec for simulated
//! node networks, with the thin command surface around it. The generator
//! builds a ring-plus-random directed peer graph; the codec renders it as a
//! GraphML-subset document; the injector adds the fixed per-node attribute
//! schema; the emitter writes the exact pretty-printed XML text. Reading and
//! writing files, and the RPC transport, live outside this crate.
pub mod commands;
pub mod config;
pub mod document;
pub mod emit;
pub mod graph_cmd;
pub mod image;
pub mod strutil;
pub mod topology;
