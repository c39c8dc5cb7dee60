# Capablanca Chess Plus

Rules, search and game logic for chess on 10-file boards (Capablanca,
Gothic, Embassy, Schoolbook, Bird, Carrera and Grand Chess), with the
decisions of its multiplayer server and of its interactive client, written in
Verus and proved against their contracts.

## Layout

- `src/` — the verified library.
  - `types`, `board`, `mv`, `rules`, `variant`: squares, pieces, boards,
    moves, the variant presets and custom Capablanca-family arrays.
  - `position`, `attack`, `movegen`, `legal`: applying moves, attacks,
    pseudo-legal and legal move generation, checks, mates, perft and
    coordinate notation.
  - `fen`, `fen_round_trip`: extended FEN reading and writing, and the proof
    that writing then reading gives back every position FEN can describe
    (every position read from FEN, and every position reached by legal
    play from a built-in starting position, among them).
  - `game`: a played game with repetition tracking and its outcome.
  - `search`: evaluation and the alpha-beta engine, proved equal to plain
    negamax when no node budget runs out and every evaluation met lies
    within the mate score, as it does with one king a side.
  - `protocol`, `server`, `hub`: the WebSocket messages, the server's
    decisions on rooms, tokens and moves, and the registry of connections.
  - `client`, `chess_match`, `multiplayer`, `ai`, `menu`, `view_state`: the
    interactive client's match state, clicks and keys, the online-game state
    machine, the conversation with an external UCI engine, the menu buttons,
    and the small state the views keep between frames.
  - `text`: characters, numbers and words.
- `tests/` — tests that run the library.
- `app/` — the multiplayer server program around the library: HTTP and
  WebSocket handling, PostgreSQL storage, and a command-line search. The 3D
  client's rendering, input and sound (Bevy), its WebSocket and browser
  storage, and the Fairy-Stockfish process have no program here; the
  decisions they call on are the library's client modules.
