//! A verified gadget layer for rank-1 constraint systems.
//!
//! Typed values (field elements, booleans, integers, scalars) are represented
//! as linear combinations over wires of a constraint fabric. Gates combine
//! such values, writing constraints into the fabric, and a static cost model
//! predicts exactly how many wires and constraints each gate consumes.

pub mod arith;
pub mod boolean;
pub mod ciphertext;
pub mod commit;
pub mod count;
pub mod div;
pub mod fabric;
pub mod field;
pub mod identifier;
pub mod integer;
pub mod mode;
pub mod plaintext;
pub mod program;
pub mod scalar;
pub mod shl_wrapped;
