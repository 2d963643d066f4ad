//! Engine of a climbing card game for a fixed table of seats: cards and their
//! cyclic order, hands, turns, rounds and scoring.
pub mod card;
pub mod hand;
pub mod deck;
pub mod player;
pub mod scoring;
pub mod game;
