//! The integer core of an XPBD rigid-body simulator with GJK/EPA collision
//! detection: how a step is split into substeps, which pairs of colliders are
//! tested, the simplex of the intersection search, the face topology of the
//! polytope that the penetration search expands (and why it stays a closed,
//! consistently wound surface), Sutherland–Hodgman clipping decided from
//! vertex sides, and the face adjacency that contact manifolds are built on.
//! Positions, normals and all floating-point arithmetic stay with the caller.
pub mod broad_phase;
pub mod clipping;
pub mod manifold;
pub mod polytope;
pub mod simplex;
pub mod timestep_schedule;
pub mod winding;
