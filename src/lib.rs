//! Timing and composition of tweening animations.
//!
//! A tween moves a target from a start to an end state over a duration,
//! once, looping, or back and forth. Tweens combine with delays into
//! sequences and parallel tracks, nested to any depth. Each tick advances
//! the tree by a time step and returns, in order, the effects the caller
//! applies: a lens to sample at a ratio, a completion event to send, a
//! callback to invoke.
//!
//! Time is counted in nanoseconds and ratios are fixed-point numbers where
//! `RATIO_ONE` stands for one, so that every step is exact.
pub mod clock;
pub mod delay;
pub mod laws;
pub mod node;
pub mod sequence;
pub mod tracks;
pub mod tween;
pub mod tweenable;

pub use clock::{PROGRESS_TOLERANCE, RATIO_ONE, RATIO_ONE_I64, SEEK_TOLERANCE_NS};
pub use delay::Delay;
pub use node::Node;
pub use tween::{Effect, Tween, TweenCompleted, TweenState, TweeningDirection, TweeningType};
pub use sequence::Sequence;
pub use tracks::Tracks;
pub use tweenable::{IntoBoxDynTweenable, Tweenable};
