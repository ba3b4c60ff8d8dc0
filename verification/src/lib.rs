//! Spatial cache and draw-preparation engine of a map editor.
//!
//! A store of nodes and ways ([`data`]) is indexed for viewport queries
//! ([`r_star`]). A bank of seven derived caches ([`cache`]) is kept in step
//! with the store and the view through a set of dirty flags ([`states`]): a
//! frame ([`editor`]) makes the lists of features in view anew where the view
//! has drifted, and refreshes what is pending in the order of the caches'
//! dependencies. What each cache holds is stated in [`model`] and computed
//! in [`refresh`]; [`laws`] holds what is true of every store and every
//! sequence of operations.
//!
//! Coordinates are whole numbers of 1e-7 degree and screen positions whole
//! pixels, so that every result is exact but one: an area is held in whole
//! square pixels, a half rounded away from zero, while the paint order goes
//! by the areas before rounding. An area is filled within the limits that
//! [`mesh`] states.

pub mod app;
pub mod area_order;
pub mod attribute2d;
pub mod cache;
pub mod data;
pub mod editor;
pub mod geometry;
pub mod laws;
pub mod mesh;
pub mod model;
pub mod osm;
pub mod osmchange;
pub mod providers;
pub mod r_star;
pub mod refresh;
pub mod seq_lemmas;
pub mod states;
pub mod tags;
pub mod text;
pub mod visual;
pub mod windows;
