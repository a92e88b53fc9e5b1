//! Core of a recursive orbit-determination engine: a Kalman filter kernel
//! (classical and extended), trigger policies for the CKF-to-EKF transition,
//! a backward smoother, and a driver that synchronizes a propagator with
//! sparse measurement epochs.
//!
//! All linear algebra is carried out exactly over machine integers, with a
//! mathematical matrix model (`Seq<Seq<int>>`) in the specifications, so the
//! covariance and gain equations are proved as exact identities.

pub mod estimate;
pub mod kalman;
pub mod laws;
pub mod matrix;
pub mod process;
pub mod scripted;
pub mod trigger;
