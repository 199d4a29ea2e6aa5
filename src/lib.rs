//! Small puzzle computations, centred on a verified interpreter for a
//! memory-addressed integer instruction set.

pub mod intcode;
pub mod noun_verb;
pub mod fuel;
pub mod passwords;
pub mod wires;
pub mod wire_text;
