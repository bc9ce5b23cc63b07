# clack (verified core)

The logic of a macOS utility that plays mechanical keyboard sounds on every
key press, written in Verus and proved against its contracts.

- `src/` is the verified library: key-code names (`keymap`), sound banks and
  their random pick with fallback to the `"default"` key (`bank`), the key-event
  state machine with key-repeat suppression and the rapid-event guard (`tap`),
  soundpack configuration (`config`), soundpack discovery, ordering, selection
  and bank assembly (`loader`), stereo deinterleaving (`decode`), the voice pool
  and buffer size of the mixer (`engine`), and the text order used for sorting
  (`text`).
- `app/` is the program around it: the CoreAudio stream and mixing, the event
  tap, the menu and dashboard, file and settings I/O, WAV decoding and
  resampling.
- `tests/` exercises the library on concrete values.
