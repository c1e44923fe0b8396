//! The decisions behind a desktop dictation app.
//!
//! A dictation is recorded (`state`, `capture`, `signal`, `wav`), transcribed by a service
//! (`server`, `stream`) or by a model on this machine (`dictation`, `models`), and typed
//! into another app (`typing`). Around it stand the microphones of the system
//! (`wireplumber`), its keyboard shortcuts (`keybinding`), the trial key of the device
//! (`fingerprint`), the files of the app (`files`) and its tray menu (`tray`).
//!
//! The library decides and computes. What it decides on comes from the app around it, as
//! plain values, and what it decides goes back to it: the app opens the microphone, talks to
//! the services and draws the windows. Samples and their loudness stay abstract here, since
//! they are floating-point numbers.

pub mod capture;
pub mod dictation;
pub mod files;
pub mod fingerprint;
pub mod json;
pub mod keybinding;
pub mod models;
pub mod server;
pub mod signal;
pub mod state;
pub mod stream;
pub mod text;
pub mod tray;
pub mod typing;
pub mod wav;
pub mod wireplumber;
