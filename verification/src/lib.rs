//! Core of a partitioned, durable workflow execution platform: the
//! per-partition leadership state machine together with the schema registry
//! updater that maintains the cluster's service and deployment catalog.

pub mod content_type;
pub mod discovery;
pub mod id_map;
pub mod leadership;
pub mod node_admin;
pub mod schema;
pub mod schema_errors;
pub mod str_map;
pub mod task_center;
pub mod timer_service;
pub mod updater;
