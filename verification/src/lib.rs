//! A procedural city simulator: dictionaries of words and names, naming
//! rules for people, places and businesses, and the yearly life of a city's
//! population (friendships, partners, families, homes and work).

pub mod random;
pub mod text;
pub mod language;
pub mod parser;
pub mod city;
pub mod utils;
pub mod names;
pub mod name_formats;
pub mod language2;
pub mod culture;
pub mod templater;
