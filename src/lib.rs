//! A retargetable shader compiler core: variable classification, slot layout,
//! expression translation, function dependency resolution and HLSL assembly.

pub mod text;
pub mod strs;
pub mod shader;
pub mod ast;
pub mod hlsl_emit;
pub mod resolve;
pub mod slcx;
pub mod translate;
pub mod layout;
pub mod assemble;
pub mod registry;
