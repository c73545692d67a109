# engine

A small 2D game engine over SDL2 and OpenGL, whose decisions are verified with Verus.

- `src/` is the verified library: bit-level serialization of network messages and packets,
  the client and server connection protocol (as functions from state and event to next state
  and reply), generational ids, the entity container, input devices and logical buttons, the
  task scheduler, sprite animations, font atlas packing, draw-call batching, materials, and the
  application's own window-event handling.
- `app/` holds what talks to the machine: SDL events and window, UDP sockets, clocks, SDL_ttf
  and SDL_mixer, OpenGL, and the parts computed in floating point (time scale, vertices, text
  layout, controller axis thresholds).
- `tests/` exercises the library on concrete values.
