//! Fuzzy project finder: the ranking engine and the state of the picker.
//!
//! The heart of the library is the [`sorter`]: it scores a line against a
//! prompt by several signals and ranks lines by their scores. Scores are
//! exact fractions; nothing is computed in floating point. [`text`] holds the
//! model of strings that the contracts speak of, and [`order`] the sorting.
//!
//! Around it stands the state of the picker: the [`project`]s that were
//! found, the [`app`] with its prompt and its selection, what a key asks of
//! it ([`handler`]), and what the [`widgets`] and the [`theme`] hold. Reading
//! directories and drawing on the terminal are left to the program that uses
//! the library.

pub mod app;
pub mod cli;
pub mod handler;
pub mod order;
pub mod project;
pub mod sorter;
pub mod text;
pub mod theme;
pub mod widgets;
