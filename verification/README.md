# sky_wayland

Exact-window computer use for KDE Plasma on Wayland.

- `src/` is the library, verified with Verus. It decides everything that can be
  decided from plain values: which window a name stands for, what is sent to it
  and in which order, what is released when something fails, how an
  accessibility tree is walked and shown, how desktop files and process tables
  are read, what the tools are and how a call of one proceeds, and how requests
  and responses are written.
- `app/` is the program around it: the session bus, the accessibility bus, the
  portal, files, processes, and arithmetic on doubles.
- `tests/` run the library on concrete values.

Work that has to be done outside the library is asked for and replied to:
`run::Run` for input commands, `resolve` for finding a window, `call` for tools,
`tree::TreeWalk` for accessibility trees, `compositor::Activation` and
`capture::Captures` for the compositor. Each is a state machine whose contract
says what is asked for next, whatever the replies were.

What holds of the library as a whole is stated by the public proof functions
whose names begin with `law_`. What is believed of `std`, `png`, `base64` and
`serde_json` stands in the few functions marked `external_body`, each with what
it claims.
