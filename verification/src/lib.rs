//! A deterministic Turing machine over a tape that is unbounded in both
//! directions, together with a block compiler that tabulates the effect of
//! running the machine inside one fixed-width block of cells.

pub mod block;
pub mod machine;
pub mod compile;
pub mod tape;
pub mod interpreter;
pub mod equivalence;
pub mod text;
pub mod display;
