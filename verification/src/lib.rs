//! Core of a tool that finds what a tree's `.gitignore` rules hide.
//!
//! Three pieces compose the core. `immutable_stack` holds a persistent,
//! structurally shared stack, used to carry the ignore rules in scope
//! along each descent path. `job_system` is a recursive job runtime
//! driven to quiescence over a seeded queue, with its exact output
//! sequence as its contract; `jobs` holds two small jobs and the laws a
//! run obeys on them. `rules` wraps the glob matcher that compiles
//! `.gitignore`-format text, and `walker` walks a directory tree held in
//! memory and reports every path those rules hide; `sizes` measures the
//! reported paths and orders the result, and `format` renders byte
//! counts. Filesystem enumeration, command-line handling, deletion and
//! the thread pool live outside the library, in the program around it.

pub mod format;
pub mod immutable_stack;
pub mod job_system;
pub mod jobs;
pub mod rules;
pub mod sizes;
pub mod walker;
