pub mod lookup;
pub mod garble;
pub mod or_operation;
pub mod fuzzing;
pub mod fuzz_target;
pub mod dvsnark;
pub mod pcl;
pub mod module_map;
pub mod picus_builder;
pub mod picus_bytes;
pub mod picus_ports;
pub mod picus_calls;
pub mod picus_checks;
pub mod picus_extract;
pub mod picus_program;
pub mod picus_laws;
pub mod picus_fresh;
pub mod picus_aux;
