//! Forward passes as sequences of device operations.
//!
//! The functions here decide which operations a pass consists of, on which
//! rank, buffers and weights each one works, and when a pass has to stop with
//! an error. The caller carries the operations out.

pub mod history;
pub mod mesh;
pub mod mesh_attn;
pub mod mesh_ffn;
pub mod mesh_join;
pub mod mesh_laws;
pub mod mesh_layer;
pub mod mesh_pass;
pub mod moe_tp;
pub mod op;
pub mod pipe;
pub mod pipe_laws;
pub mod pp;
pub mod redo_laws;
pub mod rows;
pub mod single_device;
pub mod slot_laws;
pub mod speculative;
pub mod step_laws;
pub mod tp;
pub mod tp_trace;
