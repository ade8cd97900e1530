//! Spherical direct geodesic: the angle arithmetic of the solver.
//!
//! Angles are held as binary angles: a signed count of units, with
//! `FULL_TURN` units to one revolution. Radians and degrees map onto this
//! scale linearly (`HALF_TURN` is π radians, or 180 degrees), and every
//! normalisation below is exact integer arithmetic on it.

pub mod angle;
