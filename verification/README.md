# katan

The rules of a hexagonal trading and building board game for two to four
players, as a verified library, with a window around it.

- `src/` is the library, verified with Verus: resource bundles and trades,
  cube coordinates of the board with its roads and building spots, where
  pieces may be placed, paying out a roll, development cards, the robber,
  the turn order, the largest-army and longest-road bonuses, laying out a
  new game from a seed, and applying each player's input to the shared
  state, and the record of what stands on the board. `src/laws.rs`
  states what the operations keep (no card is lost or
  made up, the turns go round, the setup rounds snake, bonus points exist
  once).
- `tests/` runs the library on concrete games.
- `app/` is the program: the window, the lobby and the peer-to-peer
  session, drawing the board, and turning clicks into the library's inputs
  and steps. What a click decides, how a move changes the game and the
  record of pieces on the board, and which phase follows, come from the
  library.
