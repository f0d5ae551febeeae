pub mod text;
pub mod root_relative_path;
pub mod ordered_map;
pub mod filters;
pub mod profiling;
pub mod boss_doer_interface;
pub mod boss_sync;
pub mod remote_desc;
pub mod exe_utils;
pub mod entries_list;
pub mod boss_frontend;
pub mod sync_roots;
pub mod confirm;
pub mod encrypted_comms;
pub mod boss_launch;
pub mod doer;
pub mod boss_deploy;
pub mod section_laws;

pub mod memory_status;
pub mod memory_bound;
