//! Follows a population of entities through an ordered list of versions.
//!
//! In each version an entity has one state, or the state that stands for its
//! absence. A [`vtracker::VTracker`] turns what it is told of the entities into
//! a [`graph::Graph`]: one node for each state that an entity had in a
//! version, one edge for each step that an entity took from a version to the
//! next, each with the entities that share it. From the graph it draws a flow
//! diagram ([`model::SankeyD3`]) in which every node and every link names the
//! nodes and links on the ways of its entities.
//!
//! Every function of the library is verified against its contract. The
//! contracts of [`graph::Graph`] and [`vtracker::VTracker`] ask for a valid
//! value (`wf`): the constructors give one and the methods keep it, so a
//! caller that changes no field by hand always has one. What holds of every
//! valid tracker is stated and proved in [`laws`].
//!
//! Strings are looked up by hashing ([`collections::StrSet`],
//! [`collections::StrMap`], [`index::NodeIndex`], [`index::EdgeIndex`]), so
//! that the cost of adding an entity does not grow with the number of
//! entities.

pub mod collections;
pub mod edge;
pub mod error;
pub mod graph;
pub mod index;
pub mod laws;
pub mod model;
pub mod node;
pub mod path;
pub mod sankey;
pub mod vtracker;
