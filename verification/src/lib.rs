//! A small suite of brain-training mini-games: numeric memory, word memory,
//! text comprehension and a digit-span exercise. Each game is a frame-driven
//! state machine that presents stimuli, collects user input, scores the
//! attempt and yields an immutable result; results and per-game
//! configurations are kept in a storage model with a round-trip-proven
//! text encoding for persistence.
pub mod codec;
pub mod controller;
pub mod digits;
pub mod games;
pub mod rng;
pub mod result;
pub mod score;
pub mod storage;
pub mod textops;
pub mod types;
