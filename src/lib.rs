//! A plugin multiplexer for the ATS plug-in interface of a train simulator.
//!
//! The multiplexer presents itself to the host as a single plug-in and fans
//! every call out to a list of child plug-ins named in a manifest, merging
//! their per-frame control outputs into one instruction for the host.
//!
//! This crate holds the decisions: which manifest entries may be loaded, which
//! child is told of which event, and how the children's proposals combine.
//! Calling into the loaded native code is left to the embedding layer.
pub mod ats_plugin;
pub mod child;
pub mod dispatch;
pub mod manifest;
pub mod registry;
