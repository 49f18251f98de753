# ardour_mcp

A server of the Model Context Protocol that controls the Ardour workstation over Open
Sound Control (OSC).

- `src/` is the library. What the workstation reports is taken into `ArdourState`
  (`feedback`, `state`, `plugins`, `table`), requests that wait for a reply are kept in
  `pending`, and each tool is a sequence of steps: a step returns an `Action` (send a
  message, wait, wait for a reply, or finish), and `tools` goes on with the outcome.
  Every function states what it does in its contract, and Verus proves it. `laws` and
  `progress` hold what spans several functions.
  `json` lays replies and resources out as trees of JSON.
- `app/` is the program: the sockets, the waiting, and the printing of JSON.
- `tests/` runs the library on given values.

Numbers in floating point are held as their bits (`single`). OSC packets are decoded by
`nannou_osc`; what the library relies on there is stated in `osc`.
