//! The logic of a desktop launcher for emergency-communication tools: grid
//! locators from positions, the launcher's configuration documents, and the
//! sessions of launched programs.

pub mod config;
pub mod console;
pub mod launch;
pub mod locator;
pub mod radio;
pub mod settings;
