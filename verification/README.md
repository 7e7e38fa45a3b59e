# Mega Clipboard

A clipboard history for the desktop. It watches the clipboard, keeps the texts and
images that were on it, logs them to a file, and shows them in a window that a hotkey or
a tray icon brings up.

`src/` is the library, verified with Verus. It decides and computes. It reads the
machine's clock and time zone, and does no other input or output.

- `state`, `ticker`: the state, what each message and each input makes of it, and what is
  to be done then
- `log`, `readback`: the log file, how it is written and read, and what reading gives back
  of what was written
- `screen`: what the window shows
- `history`, `clipboard`, `picture`, `window`: items, clipboard contents, pictures, and the
  place of the window
- `calendar`, `text`: dates, times and texts
- `laws`: what holds over several messages, and in every state

`app/` is the program around it: the window, the tray, the hotkey, the clipboard and the
files. `tests/` runs the library on concrete values.
