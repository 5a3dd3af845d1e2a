//! Driving a vehicle on a ground plane picked inside a 3D scene.
//!
//! The crate holds the geometry of the plane, the protocol by which three
//! picked points define it, the vehicle's kinematics on it and the law by
//! which a chase camera follows. All quantities are fixed-point numbers, so
//! that every rule is stated and proved over the integers. Where a result
//! would leave the reach of coordinates, a function says so in what it
//! returns.

pub mod camera;
pub mod car;
pub mod fixed;
pub mod ground_plane;
pub mod plane_laws;
pub mod selection;
pub mod splat_loader;
pub mod unit;
pub mod vec3;
pub mod visualization;
