pub mod events;
pub mod health;
pub mod lines;
pub mod supervisor;
