//! Retargeting core for driving an arbitrary named humanoid rig through a
//! fixed logical skeleton schema.
//!
//! The library models a scene graph as plain data (named nodes with ordered
//! child lists and integer-valued transforms) and verifies the algorithmic
//! heart of an avatar system: matching a declarative role schema against a
//! scene subtree, synthesizing inverse-kinematics target nodes, populating a
//! per-avatar role registry, propagating local-user ownership onto the
//! registry-referenced nodes, composing the hip pose from the head target,
//! and reference-counted sync-exclusion claims.

pub mod exclusion;
pub mod laws;
pub mod local_user;
pub mod pose;
pub mod retarget;
pub mod role;
pub mod scene;
pub mod schema;
pub mod search;
