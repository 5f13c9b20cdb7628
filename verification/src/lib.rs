//! A declarative workflow engine: ordered steps invoke external scripts
//! through named runner types, exchanging data through typed variables
//! that are literals or references. The reference-resolution and type
//! system (`workflow`, `variable`) and the script marshaling protocol
//! (`bash`, `script`) carry the correctness contract.
pub mod bash;
pub mod data_type;
pub mod error;
pub mod normalize;
pub mod runner;
pub mod script;
pub mod step;
pub mod text;
pub mod value;
pub mod variable;
pub mod workflow;
