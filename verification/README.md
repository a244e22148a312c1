# handiva

Handiva is a small desktop helper with four tools: an auto-clicker driven by
global hotkeys, a key monitor that logs key presses with the foreground
window, an icon packer that builds `.ico` files from dropped images, and a
settings page.

The decisions of all four tools live in the library under `src/`, written in
Verus with their contracts proved:

- `text`: decimal formatting, padding, trimming, splitting and number parsing
  used by the rest.
- `hotkeys`: hotkey strings (`Ctrl+Shift+F6`, `F7`), the registration plan and
  the table of registered hotkey ids.
- `config`: the settings and where a save goes.
- `clicker`: the clicker's target, interval and on/off state, and the command
  each toggle hands to the clicking loop.
- `key_monitor`: the bounded log of key presses and the UTC clock text.
- `icon_packer`: an image's resolution from its file's header, row
  warnings, the source image for each extra size, allowed file types and
  drops, the size column's text.
- `ico_build`: decoding the images and assembling the `.ico` bytes through
  the `ico` and `image` crates.
- `app_state`: what each user action and hotkey does to the window's state.

`app/` is the program around it: the egui window, file and OS access (the
settings file, hotkey registration, the mouse, the keyboard listener, file
dialogs, reading files), and the threads.

`tests/` runs the library on concrete values.
