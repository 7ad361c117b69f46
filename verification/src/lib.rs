//! `dylib_kit`: coordination and patch planning for dylib hooks that are injected into macOS
//! applications.
//!
//! The library decides and computes; it runs no program and touches no file. [`registry`] is the
//! coordination registry of a host application. [`project`], [`plan`], [`process`], [`health`],
//! [`status`] and [`cli`] are the patcher: what a patch, a removal or a restoration does to the
//! application, how the application is quit, how the hooks are verified afterwards, and what the
//! command line asks for. The modules whose names end in `_laws` state what holds of them as a
//! whole.

pub mod text;
pub mod text_laws;
pub mod path;
pub mod outside;
pub mod registry;
pub mod registry_laws;
pub mod registry_field_laws;
pub mod artifact;
pub mod glob;
pub mod project;
pub mod path_laws;
pub mod path_text_laws;
pub mod artifact_laws;
pub mod commands;
pub mod error;
pub mod inject;
pub mod plan;
pub mod plan_laws;
pub mod plan_step_laws;
pub mod process;
pub mod process_laws;
pub mod process_step_laws;
pub mod output_laws;
pub mod health;
pub mod health_laws;
pub mod health_log_laws;
pub mod status;
pub mod status_laws;
pub mod cli;
pub mod cli_laws;
pub mod view_laws;
