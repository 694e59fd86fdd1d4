//! Text assembled from span entities, with the editing core that keeps the
//! spans and a shaping buffer in step.
//!
//! An aggregate entity shows one block of styled text. The text is not
//! written on the aggregate itself: it is the concatenation of the spans
//! attached below it. This crate holds the rules of that arrangement and
//! proves them.
//!
//! - [`span`] and [`store`] hold the spans, the aggregates and the
//!   hierarchy they hang in, [`helper`] builds an aggregate in one go.
//! - [`sync`] rebuilds the flat text of the aggregates whose spans changed.
//! - [`hit`] finds the span under the pointer, [`click`] tells single,
//!   double and triple clicks apart.
//! - [`edit`] turns clicks and keys into the actions to ask of a shaping
//!   buffer, and names what is kept of an editor between two events.
//! - [`buffer`] and [`reconcile`] read the lines of an edited buffer back
//!   into the texts of the spans.
//! - [`layout`] and [`project`] place the caret and the selection on the
//!   laid-out lines, with the help of [`grapheme`].
//! - [`geometry`] and [`strings`] hold the arithmetic of the layout plane
//!   and of byte offsets into text.
//!
//! The shaping buffer itself, the fonts, the renderer and the input devices
//! belong to the host. Every function here takes what the host knows as
//! plain values and hands plain values back.

pub mod buffer;
pub mod click;
pub mod edit;
pub mod geometry;
pub mod grapheme;
pub mod helper;
pub mod hit;
pub mod layout;
pub mod prelude;
pub mod project;
pub mod reconcile;
pub mod span;
pub mod store;
pub mod strings;
pub mod sync;
