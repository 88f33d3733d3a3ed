//! What holds of every command and of every history of the federation, and of what carries them.
pub mod commands;
pub mod councils;
pub mod credentials;
pub mod deliberation;
pub mod draws;
pub mod histories;
pub mod leagues;
pub mod logs;
pub mod membership;
pub mod messages;
pub mod nodes;
pub mod people;
pub mod programs;
pub mod records;
pub mod results;
pub mod seating;
pub mod tournaments;
