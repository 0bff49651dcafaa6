//! The cops, grouped by department.
pub mod layout;
pub mod lint;
