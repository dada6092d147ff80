//! Finds what a project declares or depends on and never uses: functions that
//! nothing calls, modules that nothing marks as used, and dependencies that
//! no import statement names.
//!
//! The analysis works on syntax trees ([`syntax`]) that the caller supplies,
//! gathers what they declare, call and import ([`analyzer`]), and reconciles
//! that into a report of three sorted listings ([`reporter`]). [`scanner`]
//! decides which paths of a project are source files to analyse.

pub mod analyzer;
pub mod reporter;
pub mod scanner;
pub mod string_set;
pub mod syntax;
pub mod text;
