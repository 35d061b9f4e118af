//! Pane-layout and compositing core of a tiling terminal multiplexer.
//!
//! The crate provides the grid/surface abstraction used for drawing
//! ([`canvas`], [`view`]), the layout tree of splits and panes together
//! with its sizing, insertion and removal algorithms ([`span`], [`layout`],
//! [`tree`]), the compositor and the double-buffered diff renderer
//! ([`draw`]), the escape-code builders ([`escape_codes`]), and the pure
//! keyboard/mouse translation logic ([`input`]).  Terminal-state emulation
//! is delegated to the `vt100` crate behind a small set of trusted
//! wrappers in [`term`].

pub mod canvas;
pub mod cell;
pub mod color;
pub mod digits;
pub mod draw;
pub mod encoding;
pub mod escape_codes;
pub mod input;
pub mod layout;
pub mod rect;
pub mod span;
pub mod style;
pub mod term;
pub mod text;
pub mod tree;
pub mod vector;
pub mod view;
