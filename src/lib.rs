//! Mount orchestration for a root-level module manager: module discovery,
//! per-partition mount policy, plan construction and the fallback engine that
//! decides which strategy finally serves each module.

pub mod executor;
pub mod inventory;
pub mod planner;
pub mod policy;
pub mod prop;
pub mod table;
