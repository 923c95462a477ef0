//! A small smart-home model: a house holds named rooms, a room holds named
//! devices, and a house renders a textual report through a provider.
pub mod devices;
pub mod smarthouse;
pub mod smartroom;
pub mod text;
