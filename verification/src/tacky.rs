pub mod ast;
pub mod spec;
pub mod emittable;
pub mod tacky_emitter;

pub use tacky_emitter::TackyEmitter;
