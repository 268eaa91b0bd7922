pub mod cards;
pub mod sink_inputs;
pub mod sinks;
pub mod source_outputs;
pub mod sources;
