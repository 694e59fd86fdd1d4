//! What most callers need.

pub use crate::helper::{text, text2d};
pub use crate::span::{TextSection, TextSpan, TextSpans, TextStyle};
pub use crate::store::{Entity, World};
pub use crate::sync::update_parent;
