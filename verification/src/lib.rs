//! A fixed-width 256-bit unsigned integer built from two 128-bit limbs.
//!
//! The value type supports construction from native integers and from
//! hexadecimal or decimal text, modular arithmetic (addition, subtraction,
//! negation, all exact modulo 2^256), a total order that matches the numeric
//! magnitude, and rendering back to hexadecimal or decimal text.

pub mod codec;
pub mod decimal;
pub mod hex;
pub mod laws;
pub mod u256;
