//! The mathematical model of the federation: what its values stand for, and what each
//! command does to them.
pub mod rules;
pub mod views;
