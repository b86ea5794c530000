//! Messages of the audit subsystem.
pub mod audit;
