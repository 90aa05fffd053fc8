# batch_image_resizer

A batch picture resizer whose decisions are verified with Verus.

- `src/` is the verified library:
  - `text`: splitting on a separator and joining, with the round-trip laws;
  - `number`: decimal writing of `u32` and reading of `u32`/`i32` as `str::parse` does;
  - `params`: the job parameters, resize modes, and how a job's files are shared
    out among the CPUs;
  - `counters`: the job's processed and failed tallies;
  - `protocol`: the worker reports, the progress display's state machine, and the
    window's commands;
  - `resize`: when and into what box a picture is resized, the size that comes
    out, and the resize itself (through the `image` crate), at 8 or 16 bits a sample;
  - `output`: where a resized picture is saved, in which format, and the JPEG
    encoder's scratch name and row layout;
  - `scan`: which folder entries are pictures, and the walk through subfolders,
    with its laws: the root's pictures come first, and a finished walk lists
    every folder reachable from the root, each once where the folders form a tree;
  - `html`: the page's style and script tags.
- `app/` is the program around it: the web view window, file dialogs, folder
  listing, loading and saving pictures, the JPEG encoder, and the threads.
  It reads the page's files from an `html/` folder beside it.
