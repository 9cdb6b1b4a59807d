# atomr_worlds_client

The decisions of an interactive voxel-world client, verified with Verus: which
bricks to hold around the player, when to fetch, show, hide and drop them, what
an edit touches, how a scripted run plays out, and how the views, the character
and falling pieces react to input.

- `src/` is the verified library. Bricks, plans, queues and states are modelled
  by sequences, sets and maps; every function states what it returns or changes,
  and public proof functions state what holds across functions.
- `tests/` runs the library on concrete values.
- `app/` is ordinary Rust around it: the command line, the world host, the
  engine and floating-point geometry. It asks the library what to do and does it.

Floating-point numbers cross into the library as IEEE bit patterns
(`measure::Real32`, `measure::Real64`). The library compares them and passes
them on; arithmetic on them stays in `app/`.

Pictures are held by the `image` crate behind the wrappers in `picture.rs`, and a
duration is printed by the standard library behind one in `accel/cuda.rs`. These
are the parts of the library that are trusted rather than proved.
