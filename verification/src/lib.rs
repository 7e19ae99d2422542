//! Recurrence plots of live audio, as a verified library.
//!
//! Three (or two) channels of audio are compared with each other over a sliding
//! window of the most recent samples, and the comparison is drawn as a picture.
//! The library holds everything that decides what is drawn and what the program
//! does: the plots ([`plot`]), the contrast table ([`lut`]), the windows
//! ([`buffer`]), the rings between the threads ([`ring`]), the frame
//! ([`app`]), the choice of device and channels ([`audio`]), the command line
//! ([`config`]), remote control ([`osc`]), displays and fullscreen
//! ([`display`], [`macos`]) and the event loop's decisions ([`session`]).
pub mod app;
pub mod arith;
pub mod audio;
pub mod bits;
pub mod buffer;
pub mod config;
pub mod display;
pub mod lut;
pub mod macos;
pub mod osc;
pub mod plot;
pub mod ring;
pub mod session;
pub mod text;
