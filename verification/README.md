# smart_road

Verified core of a traffic simulation in which autonomous vehicles cross a four-way
intersection without traffic lights. A controller grants entry reservations so that vehicles
on crossing paths never hold the junction at the same time, and schedules speeds inside it.

- `src/` is the library, proved with Verus: lane layout and paths (`intersection`), exact
  lane-conflict geometry, the reservation rule, grant passes, holds, zone entry/exit and the
  managed-zone scheduler (`smart`), spawn throttling, numbering and route rotation (`spawn`),
  keyboard events (`input`), session statistics and the statistics window layout (`stats`,
  `stats_window`), drawing layout (`render`), speed levels (`vehicle`) and constants (`config`).
- `app/` is the SDL2 program around it: window, keyboard, clock, `f32` vehicle motion and
  drawing. It measures what the controller reads each frame (zone membership, distances,
  proximity) and applies what the library decides.
- `tests/` exercises the library on concrete values.
