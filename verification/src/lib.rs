//! Host-side logic of a tensor-/pipeline-parallel Qwen3.x MoE runtime.

pub mod arith;
pub mod text;
pub mod paths;
pub mod tensor;
pub mod tp_slice;
pub mod weight_layout;
pub mod tp_slice_laws;
pub mod assignment;
pub mod config;
pub mod names;
pub mod tp_layout;
pub mod device;
pub mod session;
pub mod state_ops;
pub mod state_laws;
pub mod tp_session;
pub mod plan;
pub mod layout;
pub mod weights;
pub mod forward;
pub mod load_error;
pub mod convert;
pub mod upload;
pub mod sharded;
pub mod load;
pub mod model;
pub mod model_arch;
pub mod tp_load;
pub mod tp_sharded;
pub mod tp_plan;
pub mod hybrid;
pub mod mtp;
pub mod mtp_forward;
pub mod mtp_laws;
pub mod mtp_values;
