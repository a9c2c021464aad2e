//! Colour quantisation of an image by nearest-centroid clustering in the
//! cube of its colours, and the free-fly / orbit camera that shows the
//! clusters as a scene.
//!
//! Every coordinate, length and trigonometric value is a 16.16 fixed-point
//! number held in an `i32`: `fixed::ONE` units make 1.0. Intermediate results
//! are exact integers, rounded to the nearest unit once at the end, and a
//! result too large for an `i32` saturates. The contracts speak of the same
//! values as mathematical integers: a `Vector3` is seen as an `IntVector`, a
//! `Camera3D` as a `Pose`.
//!
//! - `fixed`: rounding division, saturation and the integer square root.
//! - `vector`: vectors, their unit form and its length.
//! - `color`: colours and their points in cluster space.
//! - `cluster`: the centroids, the assignment of samples and the update.
//! - `camera`: the pose, the turn about an axis, and the moves.
pub mod camera;
pub mod cluster;
pub mod color;
pub mod fixed;
mod random;
pub mod vector;

pub use crate::cluster::{cluster_of_color, generate_new_means, recluster_state, update_means};
pub use crate::color::{Color, ColorHash};
pub use crate::vector::Vector3;
