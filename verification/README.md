# irssi-tg

A Telegram client for the terminal in the style of irssi. The core of the client
is a library that Verus verifies; the program around it talks to Telegram and to
the terminal.

- `src/` is the library. `app` holds the state of the client and its model,
  `AppView`. `event`, `dispatch` and `reply` are the steps: a key or a message
  comes in, a command is run, an answer arrives. Each step says exactly what the
  model becomes and which `Action` is asked for next. `command` is the grammar of
  the command line, `complete` the Tab key, `session` the file of open windows,
  `theme` the file of colours. `ui`, `bar`, `pane` and `input` compute what is
  drawn. `laws` states what holds across steps.
- `app/` performs the actions and draws the screen.
- `tests/` runs the library on concrete values.

Lines are stamped with the time of day. A function that reads the clock promises
what holds for every time; beside it stands one that takes the time and says
exactly what it does.

Calls into other crates stand behind small functions whose contracts are not
proved: the clock and time zone (`clock`), the names of colours (`theme`), the
width of text (`style`) and the layout of the screen (`ui`). Two functions of the
standard library are treated alike (`text`).

Run it with `irssi-tg --theme dracula`, with `TG_API_ID` and `TG_API_HASH` in the
environment or in a file `.env`. Themes are read from `themes.ini`, which is
written on the first start.
