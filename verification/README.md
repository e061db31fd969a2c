# music_player

The logic of a music player with a file list and a visualizer, verified with Verus.

- `src/single.rs`: single-precision numbers by their bit pattern: order, magnitude, bounds.
- `src/ring.rs`: the ring of the latest samples.
- `src/visualizer.rs`: which samples a bar stands for, how loud they are, how bars and marks move.
- `src/files.rs`, `src/sort.rs`, `src/order.rs`: the list of music files and its order.
- `src/player.rs`: the state of the player.
- `src/playback.rs`: how a playback gets going, step by step.
- `src/controls.rs`: what the buttons and sliders do.
- `src/text.rs`, `src/file_list.rs`: what is shown.

`app/` is the window, the audio output, the file system and the floating-point arithmetic.
Functions named `law_..` state what holds of the library as a whole.
