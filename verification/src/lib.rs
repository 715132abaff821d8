//! An in-memory view of how the workloads of a cluster relate to each other:
//! which namespace holds which service or route, and which pods a service
//! selects.
//!
//! The view is a forest with a root for each namespace. It is kept in line
//! with the cluster one notification at a time: an object that was created
//! or changed is taken out wherever it stands and put where the rules say
//! it belongs, an object that is gone is taken out with all under it.

// The data: text, label maps, snapshots of objects, nodes and what they show.
pub mod labels;
pub mod metadata;
pub mod node;
pub mod objects;
pub mod text;

// The forest and what changes it.
pub mod events;
pub mod reconcile;
pub mod rules;
pub mod store;
pub mod tree;

// What readers are given.
pub mod publish;

// What holds of the forest.
pub mod counting;
pub mod homes;
pub mod idempotence;
pub mod placement;
pub mod relatives;
pub mod uniqueness;
pub mod wiping;
