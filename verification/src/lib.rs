//! Verified core of a backlight brightness daemon.
//!
//! A UI-layer brightness value is polled from a readable resource,
//! translated through a fixed non-linear curve into a hardware panel
//! value, and applied smoothly in a bounded number of interpolation
//! steps. This crate holds the verified logic: the curve mapper, the
//! text protocol of the resource, the smoothing step plan, and the
//! control-loop state machine. The surrounding process supplies the
//! resource I/O and the sleeps.

pub mod config;
pub mod control;
pub mod curve;
pub mod parse;
pub mod smooth;
