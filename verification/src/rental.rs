//! Renting: the machines a rented entry declares, acquired behind teardown
//! guards, and the supervisor that keeps them within budget and replaces the
//! ones that vanish.

pub mod acquire;
pub mod rented_program;
pub mod supervisor;
