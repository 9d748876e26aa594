//! Replicates seed ConfigMaps and Secrets into every other namespace of a
//! cluster, as sprouts that carry a back-reference and a content hash.
//!
//! The library holds the decisions of the controller: which objects are seeds
//! or sprouts, what a sprout looks like, the content hash of a seed, what to do
//! in each target namespace, the registry of known seeds and the routing of
//! watch events. The calls into the cluster are made by the caller, which
//! hands the answers back to the step functions here.
pub mod dispatch;
pub mod grower;
pub mod kind;
pub mod object;
pub mod payload;
pub mod registry;
pub mod text;
pub mod utils;
