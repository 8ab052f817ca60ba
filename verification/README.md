# Moonlighter overlay

A transparent overlay for the game Moonlighter: it finds the shop on the
screen by template matching, recognises the items in its slots, and shows
each item's price above it. Hotkeys and a tray menu switch between the usual
price tags, a manual price search, and a mode for marking shop slots by hand.

## Layout

- `src/` is the library, verified with Verus: the template-matching sums, the
  shop geometry, the mask clean-up and cropping of templates, the loading of
  the embedded templates, the price table and its search, the hotkey and
  search-box decisions, the detection and hotkey loops' decisions, the
  overlay's commands and input handling, each screen as an ordered list of
  drawing steps, and the software drawing of those steps into a pixel buffer.
- `app/` is the program around it: capturing the game window, the Windows
  keyboard, tray and window plumbing, the settings file, font rasterising of
  the texts the library lays out, and the floating-point scores.
- `tests/` exercises the library on concrete values.
