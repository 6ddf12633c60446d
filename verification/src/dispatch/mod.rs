//! The services that federates call.

pub mod advisories;
pub mod calls;
pub mod data_flow;
pub mod ddm_lifecycle;
pub mod ddm_matching;
pub mod ddm_regions;
pub mod declaration;
pub mod directed;
pub mod federation_mgmt;
pub mod handle_lookup;
pub mod helpers;
pub mod instance_lookup;
pub mod introspection;
pub mod invariants;
pub mod object_mgmt;
pub mod ownership;
pub mod restore;
pub mod save;
pub mod switches;
pub mod sync_points;
pub mod time_mgmt;
