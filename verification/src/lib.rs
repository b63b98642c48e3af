//! Frame-synchronization core of a live visual-performance video source.
//!
//! A decode backend delivers raw samples on its own threads while a render
//! loop drives playback with a beat counter or a wall clock.  This crate
//! holds the synchronization engine between the two: the latest-wins frame
//! slot, the runtime-switchable clock gate that decides when the next
//! decoded sample may become visible, and the bookkeeping behind the
//! render loop's blocking wait.  The decode backend itself (pipeline
//! construction, seeking, sample delivery) is external I/O and stays
//! outside this crate; it talks to the core through plain values.

pub mod frame;
pub mod gate;
pub mod provider;
pub mod speed;
