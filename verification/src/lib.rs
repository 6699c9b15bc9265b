//! Rules and board geometry of a hexagonal trading and building game:
//! resource bundles, trades, board coordinates, placement of roads and towns,
//! dice payouts, development cards, the robber and the turn order.
mod outside;
pub mod resources;
pub mod positions;
pub mod board;
pub mod trading;
pub mod colors;
pub mod game;
pub mod cards;
pub mod robber;
pub mod dice;
pub mod army;
pub mod placement;
pub mod longest_road;
pub mod setup;
pub mod turn_ui;
pub mod lobby;
pub mod record;
pub mod laws;
