//! A font catalog toolkit: lints a hand-authored manifest of font groups and
//! fonts, and compiles it into a content-addressed artifact.

pub mod build_theorems;
pub mod builder;
pub mod identity;
pub mod lint_theorems;
pub mod ledger;
pub mod lint;
pub mod messages;
pub mod reach;
pub mod reference_theorems;
pub mod resolver;
pub mod rules;
pub mod sorting;
pub mod text;
pub mod types;
pub mod urls;
