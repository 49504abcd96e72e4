# task_masker

The game logic of Task Masker, a game in which a streamer's Twitch
community shows up on an island map: chatters fly and subscribers swim to
the streamer's character to speak, fruit falls and crops grow on request,
and a chat box types out what everyone says.

- `src/` is the library, verified with Verus: tile grids and the graphs
  built from them, a breadth-first search that finds shortest routes on
  them (the same route for the same ends), the reading of Tiled map files
  into tilesets, layer cells and the textures they ask for, the record of
  every tile as it is drawn, the decisions of every entity of the game,
  the chat box's message queue and typing, the screens and their health bar, the soundtrack, and
  the reading of Twitch notifications.
- `tests/` runs the library on concrete maps and messages.
- `app/` is the game itself: Bevy systems that hold the library's values in
  components, draw the Tiled map, play sounds, read the Twitch chat and keep
  portrait preferences in SQLite.
