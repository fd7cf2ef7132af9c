//! A navigable, hierarchical command dispatcher for line-oriented shells.
//!
//! A command tree is a tree of named classes (namespaces); each class holds
//! child classes and leaf actions (callable commands). A [`Commander`] walks
//! the tree according to tokenized input lines, tracks the current position
//! as a dot-joined path, and invokes matched actions with the residual
//! tokens of the line.
//!
//! Matching is exact, whole-token and case-insensitive (ASCII-only folding:
//! a character outside `'A'..='Z'` matches only itself; see [`norm`]). Three
//! built-in keywords take precedence over class and action names: `c`
//! ascends one level (an error at the root), `root` resets the position to
//! the root, and `exit` tells the enclosing read loop to stop. A line that
//! fails commits nothing; `Exit` and an invoked action keep the navigation
//! that preceded them on the same line.

pub mod builder;
pub mod commander;
pub mod laws;
pub mod model;
pub mod norm;
pub mod parser;
pub mod tree;

pub use builder::{BuildError, Builder};
pub use commander::{Commander, Handler, LineResult, NoopHandler, ParseError, RecordingHandler};
pub use tree::{Action, SubClass};
