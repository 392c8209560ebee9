//! Particle physics, paddle game logic, button debouncing and a deadline
//! queue for a small display-driven microcontroller demo.
pub mod phys;
pub mod debounce;
pub mod sched;
pub mod game;
