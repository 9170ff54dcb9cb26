//! Reading numbers out of the lines of a text and summing them.
//!
//! A text arrives in chunks. The assembler cuts it into records, one for
//! each line that a newline ends. From each record a number is read, made of
//! its first and its last digit, and the distributor adds the numbers up,
//! whatever the order in which they come in. A second kind of line writes a
//! game of coloured cubes, of which the largest counts are kept.
//!
//! Each module states its functions over sequences of characters; the
//! modules whose names end in `_laws` hold what follows for all inputs.

pub mod args;
pub mod assembler;
pub mod assembler_laws;
pub mod distributor;
pub mod distributor_laws;
pub mod extract;
pub mod extract_laws;
pub mod game;
pub mod game_text;
pub mod reader;
pub mod text;
