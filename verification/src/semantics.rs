//! What a program means: the value of a tree, the effect of the emitted
//! instructions on a model of the machine, and the proof that the two agree.

pub mod correct;
pub mod machine;
pub mod tree;
pub mod word;
