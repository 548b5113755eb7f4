# peck

Vimium-style mouseless navigation for the niri compositor. peck finds the
actionable elements of the focused window over AT-SPI, labels them, and lets the
user pick one by typing its label or by searching for it; the element is then
activated through its own action or with a synthetic pointer gesture.

- `src/` is the verified library: the decisions, searches, rankings, layouts and
  texts, each with a contract that Verus proves.
  - `atspi`: roles and states, the search for the active frame, the walk of the
    accessibility tree, the choice of an action
  - `hints`: label alphabets and enumerations, assignment, typing a label
  - `ui`: the panel's state machine with its laws, fuzzy matching and its
    limits, what the panel shows, the hint overlay
  - `overlay`: label layout and drawing on a pixel buffer
  - `session`, `daemon`: the steps of an activation, the socket protocol, one
    activation at a time
  - `niri`, `geometry`, `pointer`: replies of the compositor, rectangles,
    pointer events
  - `text`, `rank`, `paths`, `report`: strings, ordering, byte paths, dumps
- `app/` is the program around it: the command line, D-Bus, Wayland, GTK, and
  everything that computes with floating-point numbers.
- `tests/` runs the library.
