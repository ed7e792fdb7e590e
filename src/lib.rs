//! Helpdesk ticket lifecycle: clients file tickets, an assignment policy routes
//! them to technicians, and each ticket moves through a fixed state machine.

pub mod models;
pub mod patterns;
pub mod system;
