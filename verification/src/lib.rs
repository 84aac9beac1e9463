//! A polyphonic tone generator core: twelve note slots, each holding an
//! optional sine oscillator with persistent phase, mixed per sample into one
//! mono amplitude and shared between an event thread and a render thread.
//!
//! All state here is integer-valued: an oscillator's phase is a whole number
//! of elapsed samples wrapped modulo the sample rate, and its frequency is a
//! whole number of hertz. A rendered sample is described exactly by the
//! oscillator's offset within its sine cycle, a rational number `offset /
//! sample_rate` of a full turn; evaluating the sine itself is left to the
//! caller that owns the audio buffer.

pub mod bank;
pub mod oscillator;
pub mod pitch;
pub mod shared;
