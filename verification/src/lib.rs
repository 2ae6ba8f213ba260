//! Static single assignment (SSA) intermediate representation: the
//! value/instruction/basic-block data model, per-function data-flow graphs,
//! a multi-function program container with identifier management and
//! entry-point resolution, and the canonical textual rendering.

pub mod text;
pub mod typ;
pub mod value;
pub mod instruction;
pub mod basic_block;
pub mod dfg;
pub mod function;
pub mod printer;
pub mod program;
