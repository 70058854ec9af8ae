//! A small verified core for dealing and evaluating bridge hands: a 52-card
//! deck model, a random dealer, a canonical suit/rank ordering, a textual
//! hand layout, and the standard point-count scoring rules.
pub mod card;
pub mod deck;
pub mod render;
pub mod score;
pub mod sorting;
