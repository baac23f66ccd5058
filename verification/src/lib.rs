//! Precompile chips of a zero-knowledge virtual machine prover.
//!
//! Each chip turns the events that one kind of accelerated guest operation left in a shard
//! into a trace matrix over the trace field, and evaluates the polynomial constraints that a
//! valid trace satisfies. The operations are 256-bit modular multiply-add, 32- and 64-byte
//! memory copies and a fixed-permutation hash.
//!
//! The way through the library follows an operation from the program to the proof:
//!
//! - [`runtime`] and [`syscalls`] are the program's side: memory with its journal of accesses,
//!   and what each syscall does to it; [`guest`] and [`scalar_hash`] call them on values.
//! - [`events`] holds what a syscall leaves behind, and the shard's record.
//! - [`field`], [`limbs`], [`poly`] and [`field_op`] are the arithmetic: the trace field,
//!   integers as digits, and the witness that a modular operation was done right.
//! - [`memory`] and [`lookup`] restate memory accesses as columns and collect range checks.
//! - [`bn254_mul_add`], [`bn254_scalar`], [`memcopy`] and [`poseidon`] are the chips, each
//!   with its rows, its constraints and the proof that its rows satisfy its constraints;
//!   [`registry`] is the chips as one family.
//! - [`air`] and [`trace`] are what the chips share: the evaluation of constraints on a pair
//!   of rows, and matrices with padded heights.
pub mod air;
mod bigint;
pub mod bn254_mul_add;
pub mod bn254_scalar;
pub mod events;
pub mod field;
pub mod field_op;
pub mod guest;
pub mod limbs;
pub mod lookup;
pub mod mac_core;
pub mod memcopy;
pub mod memory;
pub mod poly;
pub mod poseidon;
pub mod registry;
pub mod runtime;
pub mod scalar_hash;
pub mod syscalls;
pub mod trace;
