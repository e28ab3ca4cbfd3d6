pub mod lex4m;
pub mod mlir4m;
pub mod node4m;
pub mod par4m;
pub mod token4m;
