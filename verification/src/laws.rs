//! What holds of the cycle as a whole.

pub mod answers;
pub mod chronicle;
pub mod events;
pub mod history;
pub mod layout;
pub mod press;
pub mod recency;
pub mod system;
pub mod timing;
pub mod views;
pub mod walk;
