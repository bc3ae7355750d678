use vstd::prelude::*;

pub mod actions;
pub mod card;
pub mod cost;
pub mod deck;
pub mod hand;
pub mod markers;
pub mod object;
pub mod packet;
pub mod paste;
pub mod pile;
pub mod rng;
pub mod rules;
pub mod scryfall;
pub mod search;
pub mod shapes;
pub mod seats;
pub mod sync;
pub mod table;
pub mod text;
pub mod types;
