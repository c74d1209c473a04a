# text_hook

The build-time and run-time logic of a text hook for translating Windows
games, written in Verus: every function in `src/` has a contract, and Verus
proves that the code meets it.

- `src/` is the verified library: path patterns and redirection rules
  (`pattern`, `vfs_rules`, `vfs`), byte patches and x64dbg `.1337` patch files
  (`patch1337`, `patch_data`), executable images and the entry-point hook
  (`pe`), hook lists (`hooks`), text tables and character mappings
  (`codegen`), build-time constants (`constants`), template file selection
  (`templates`), resource packs (`resource`), bitmap-font atlases (`font`),
  hardware breakpoints and the exception handler's decisions (`hwbp`, `veh`),
  handler registration (`registration`), string fetching (`fetch`), the
  worker loop (`worker`), memory checks and instruction encoding (`mem`), an
  interner (`interner`) and text helpers (`text`, `slices`).  Public proof
  functions named `law_*` state properties that span several functions.
- `app/` is ordinary Rust around it: reading files, parsing images with
  `goblin`, rasterising glyphs with `fontdue`, and the loops that talk to the
  operating system.
- `tests/` exercises the library on concrete values.
