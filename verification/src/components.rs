//! Components from the game other than controllers: digit expanders, RAM and
//! ROM modules, queued input sources, and output sinks.

pub mod expander;
pub mod inputsource;
pub mod memory;
pub mod outputsink;
