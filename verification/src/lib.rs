//! A point index over a sphere.
//!
//! Positions are fixed-point: latitudes and longitudes are whole nanoradians,
//! and the value half way between two of them is held in half nanoradians, so
//! that every comparison and every sum in the index is exact. Lengths, such
//! as the radius of the sphere and the distance of a query, are whole numbers
//! of one unit of the caller's choice.
//!
//! The index is a two-dimensional k-d tree that is built once from a batch of
//! points. It answers box queries, and for radial queries it finds the
//! candidates: the points in the boxes that cover a disc. What needs
//! trigonometry, the widest reach of a disc in longitude and the great-circle
//! distance that tells the candidates apart, is the caller's to supply.

pub mod build_model;
pub mod geo_container;
pub mod geo_point;
pub mod index_order;
pub mod kd_tree;
pub mod query_laws;
pub mod search_box;
pub mod seq_facts;
pub mod sphere_helper;
pub mod tree_model;
