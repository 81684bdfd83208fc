//! Django support for a Python type checker: framework configuration,
//! the project-wide routing table for reverse relations, and the rules that
//! name and type the attributes Django synthesizes on models.
use vstd::prelude::*;

pub mod ast;
pub mod collections;
pub mod django_enums;
pub mod django_fields;
pub mod django_forms;
pub mod django_index;
pub mod django_model;
pub mod django_settings;
pub mod framework_config;
pub mod identifier;
pub mod related_name;
pub mod text;

verus! {

} // verus!
