//! Layout engine core: restyle damage, an arena flow tree built from the
//! styled document, its damage propagation and constraint-solving passes, a
//! postorder scheduler, display lists with geometry queries, and the layout
//! task's message protocol.

pub mod damage;
pub mod flow;
pub mod schedule;
pub mod solve;
pub mod display;
pub mod builder;
pub mod task;
pub mod construct;
