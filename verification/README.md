# judge

The match runner of a game tournament: the rules of its games, the rooms
players meet in, and the decisions of the server around them, proved with
Verus.

## Layout

- `src/` — the verified library.
  - `text`, `protocol`: the line protocol between server and clients, with
    parsing and printing proved inverse.
  - `lobby` and one module per game (`rps`, `pd`, `ttt`, `xiangqi`, `chess`,
    `poker`/`holdem`, `jog`): each game as a validate/fold pair over a room
    state, with the laws its rules promise; `poker_chips` proves that a
    heads-up game neither makes nor loses a chip.
  - `playground`, `xiangqi_bot`, `chess_bot`, `poker_bot`: the sample bots
    that learners play against.
  - `game` (results and the registry of games and their limits),
    `ttt_match`, `rps_match`, `pd_match`: the engines of the
    classic matches, one decision per message.
  - `room`, `socket`, `capacity`, `config`, `submission`, `sandbox`: rooms
    and their membership, the socket commands, load accounting, settings,
    the checks on a submission before it is compiled or run, and what a
    confined program may still reach.
- `tests/` — tests of the library on concrete values.
- `app/` — the server around it: HTTP and socket handlers, token checks,
  the match loops, and the work handed to the operating system.
