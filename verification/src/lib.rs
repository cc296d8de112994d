//! The logic of an embedded Wayland server that shows client toplevels as
//! platform views of a Flutter shell.
//!
//! Everything here is a state machine over plain values. Surfaces, buffers,
//! clients, fences, fifo barriers and presentation callbacks are named by the
//! numbers the event loop gave them; the event loop does the protocol work
//! and performs the actions these functions return.

pub mod action;
pub mod activation;
pub mod binding;
pub mod buffers;
pub mod caps;
pub mod commands;
pub mod config;
pub mod cursor;
pub mod custody;
pub mod dmabuf;
pub mod egl_display;
pub mod error;
pub mod feedback;
pub mod frame;
pub mod gbm_buffer;
pub mod holds;
pub mod input;
pub mod launch;
pub mod ledger;
pub mod log;
pub mod maps;
pub mod nodes;
pub mod observe;
pub mod order;
pub mod pacing;
pub mod params;
pub mod popups;
pub mod progress;
pub mod reports;
pub mod scanout;
pub mod screen;
pub mod staging;
pub mod state;
pub mod submit;
pub mod text;
pub mod thread;
pub mod timing;
pub mod tree;
pub mod vendor_gbm;
pub mod view;
pub mod waits;
