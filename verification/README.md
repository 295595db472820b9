# ducktape

Interaction logic for a set of iced UI components (menus, menubar, navigation
menu, context and dropdown menus, command palette, calendar and date picker,
carousel, accordion, dialogs and drawers, one-time-password input, data table
sorting, charts and a message scroller), written in Verus and proved against
its contracts.

- `src/` is the verified library: reducers from state and input to the next
  state and focus target, date arithmetic, text matching, key derivation for
  focusable widgets, chart data normalization and transcript row tracking.
  Each public function states its result exactly; the `lemma_*` proof
  functions state the laws that hold across calls (steps that undo each
  other, navigation that always lands on an enabled item, idempotent
  application of events, and so on).
- `app/` is ordinary Rust around the library: conversion of iced keys and
  events, focus tasks built from the library's keys, and the parts that work
  in floating-point pixels (component geometry, chart geometry, the message
  scroller's viewport state, drag arithmetic).
- `tests/` runs the library on concrete inputs.
