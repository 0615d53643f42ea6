//! Code emitters for AVX2 matrix-multiplication micro-kernels.
//!
//! The emitters build token streams (see [`tokens`]) that spell out unrolled
//! kernels: loads of accumulator rows, fused multiply-adds, tails that handle
//! the remainder of a reduction by its binary decomposition, and stores.
pub mod tokens;
pub mod avx2;
pub mod instructs;
pub mod parse;
