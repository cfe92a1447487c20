//! Back end and execution engine of a small actor language: a type checker,
//! a bytecode compiler, a stack machine, capability-gated effects and a
//! message-passing scheduler over bounded mailboxes.

pub mod ast;
pub mod bytecode;
pub mod effects;
pub mod interpreter;
pub mod mailbox;
pub mod runtime;
pub mod typechecker;
