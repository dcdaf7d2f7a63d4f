//! The traffic view's state and rules: the displayed events, filtering,
//! and the conversions from observed traffic into displayed rows.

pub mod application;
pub mod domain;
pub mod runtime;
