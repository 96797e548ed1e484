//! Type inference core of the Merlin language.
pub mod ast;
pub mod checking;
pub mod codegen;
pub mod debug_text;
pub mod declarations;
pub mod display;
pub mod equality;
pub mod inference;
pub mod literals;
pub mod laws;
pub mod lowering;
pub mod names;
pub mod passes;
pub mod properties;
pub mod repl;
pub mod rules;
pub mod soundness;
pub mod statements;
pub mod text;
pub mod types;
pub mod unification;
