//! A small stack-based virtual machine for an object-oriented bytecode.
//!
//! The engine executes instructions over an operand stack, local and global
//! slots and a class table. Objects live in an index-addressed arena and are
//! reclaimed by a tracing collector whose roots are the slots of every active
//! invocation.
//!
//! - `stackcode`: the instruction set and the brackets of code literals.
//! - `object`, `error`: the values of the machine and its fatal errors.
//! - `heap`: the arena and its collector.
//! - `classty`, `classdef`: the class table, and how a class is assembled.
//! - `instance`, `primty`, `dispatch`: what every value can do.
//! - `interprete`: the effect of one instruction.
//! - `machine`: the chain of invocations, stepping and running.
//! - `consistency`, `collection`: what holds of every state that is reached,
//!   and that a collection is invisible to the program.

pub mod classdef;
pub mod classty;
pub mod collection;
pub mod consistency;
pub mod dispatch;
pub mod error;
pub mod heap;
pub mod instance;
pub mod interprete;
pub mod machine;
pub mod object;
pub mod primty;
pub mod stackcode;
