//! A verified simulation environment in the spirit of the game SHENZHEN I/O
//! by Zachtronics.
//!
//! Controllers (user-supplied bodies) communicate through two wire types:
//! simple pins (word-sized cells that never block) and the XBus, a rendezvous
//! channel with peripheral endpoints. A deterministic global clock advances in
//! discrete timesteps; between ticks every controller must reach a sleep on
//! the clock or on a bus, and the scheduler detects deadlocks instead of
//! hanging on them.
//!
//! To build a simulation, create a [`board::Board`], add pins, buses and
//! peripherals to it, implement [`controller::Controller`] for each worker,
//! and drive the set with a [`scheduler::Scheduler`].

pub mod board;
pub mod components;
pub mod controller;
pub mod filerunner;
pub mod laws;
pub mod pin;
pub mod scheduler;
pub mod xbus;
