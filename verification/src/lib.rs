//! An abstract register machine driven by a small control language: named
//! registers, a stack, a table of pluggable operations and a sequence of
//! instructions with labels and branches.

pub mod machine;
