//! Verified core of a small multi-threaded game engine: entity identifiers and
//! entity maps, the world's entity allocator, the game controller that turns
//! input and system events into game events, double-buffered per-thread event,
//! frame and update buffers, data swapped and shared between update loops, the
//! fixed-rate update schedule, the network packet codec and the server/client
//! replication bookkeeping, the static mesh system, the renderer's scene
//! bookkeeping and device selection rules, the audio output settings, and the checks of an OpenXR system.

pub mod entity;
pub mod world;
pub mod swap_data;
pub mod input;
pub mod thread_buffers;
pub mod packet;
pub mod event;
pub mod resources;
pub mod frame_buffer;
pub mod update_buffer;
pub mod network;
pub mod static_mesh;
pub mod controller;
pub mod render;
pub mod shared_data;
pub mod engine;
pub mod scene;
pub mod audio;
pub mod vr;
