//! A console report of hierarchical labelled items.
//!
//! A [`model::Model`] is an ordered forest of [`model::ViewItem`]s. Each
//! top-level item spans one column of the report; [`view::Display`] lays the
//! columns out as aligned text.

pub mod model;
pub mod view;
