# compositor_core

The decisions of a KMS compositor, verified with Verus: which element goes to which plane, what is
rendered, which frame is shown next, how a cursor is presented, and who hears about touch points and
emulated input.

- `src/` is the library. It talks to hardware through the trait in `device.rs` and assumes nothing
  about the answers. Each step of a frame is an exact function from a state and an answer to the
  next state; `render.rs`, `submit.rs`, `init.rs` and the drivers run those steps. `record.rs` keeps
  a record of every call and its answer, and the `*talk.rs` modules say what is in it: `setup_talk.rs`
  for setting up, `attempt_talk.rs` for the search for a plane, `frame_talk.rs` for a whole frame, and
  `talk.rs` for their parts and for submitting.
- `*_laws.rs` and the public proof functions elsewhere state what holds across several steps.
- `app/` connects the library to device nodes, event loops and shared handles.
- `tests/` run the library with a mock device.
