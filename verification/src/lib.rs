pub mod arith;
pub mod rational;
pub mod rational_ord;
pub mod note;
pub mod granular;
pub mod text;
pub mod channel;
pub mod sf2;
pub mod automation;
pub mod pad;
pub mod command;
pub mod modulation;
pub mod project;
pub mod edit;
pub mod mpe;
pub mod euclid;
pub mod markov;
pub mod midi;
pub mod midi2;
pub mod pattern;
pub mod matrix;
pub mod crdt;
pub mod plugin_au;
pub mod merge;
pub mod history;
pub mod edits;
pub mod sched;
pub mod firing;
pub mod arrangement;
pub mod clip_ids;
pub mod router;
pub mod fluid;
pub mod persistence;
pub mod demo;
pub mod smf;
pub mod midi_import;
pub mod import;
pub mod export;
pub mod musicxml;
