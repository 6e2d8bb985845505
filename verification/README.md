# purrtty

A terminal emulator with tabs, an agent prompt and a GPU renderer. Its logic is
a Verus library: every operation of the terminal is stated as a function on a
mathematical model and proved.

- `src/screen.rs` is the model of a screen, with each operation as a function
  from screen to screen. `grid.rs` is the grid that implements it, `reflow.rs`
  lays its content out anew when it is resized, `laws.rs` states what holds of
  the terminal as a whole.
- `src/vt.rs` is the boundary to the `vte` parser, `parser.rs` what each
  recognized sequence does, `osc.rs` and `blocks.rs` operating system commands
  and the blocks that shells report.
- `src/keys.rs`, `mouse.rs`, `paste.rs`, `session.rs`, `tabs.rs`, `selection.rs`,
  `agent.rs` turn input into actions.
- `src/paint.rs`, `view.rs`, `theme.rs`, `links.rs`, `urls.rs`, `atlas.rs` decide
  what a frame shows.
- `app/` opens the window, runs the shells and draws. It is ordinary Rust around
  the library.

The agent is the command line program that the environment variable
`PURRTTY_AGENT` names.
