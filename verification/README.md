# imlec

Particle effects that follow the pointer while you type, in every application: an overlay for
Wayland (wlr-layer-shell), X11 and Windows.

- `src/` is the library: the decisions of the overlay, verified with Verus.
  - `color`: hexadecimal colours and the colour modes
  - `text`: trimming, splitting, joining paths
  - `keys`: classes of keys and their effects
  - `rect`: pixel rectangles, their union and clamping
  - `pacing`: frame clock, throttles, watching the configuration file
  - `linux_backend`: evdev input, pointer tracking, double-buffered surfaces, the Wayland overlay,
    the X11 window
  - `windows_backend`: the keyboard hook and its queue, the layered window, the tray icon
- `app/` connects the library to the kernel, the display servers and a particle engine. It is
  not verified. What computes with real numbers is there too: mixing and cycling colours, frame
  intervals, and the coordinates that are handed to the engine.
- `tests/` runs the library with the real outside crates.

Positions that are tracked from relative motion are kept in half pixels, and colours that are read
from text in 255ths, so that both are exact integers.
