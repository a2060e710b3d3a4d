# auto_gen_d_ts

Generates TypeScript declaration files (`.d.ts`) for JavaScript sources: the
exported functions of each `.js` file are collected, packed into chunks of at
most 8 KiB of source (a longer function is left out, with a notice), sent to a text-generation service, and the fenced code
block of each reply is written as `<file>.d.ts`.

- `src/` is the library, verified with Verus: text operations (`text`),
  parsing and chunking (`compile`), the prompt, request pacing, replies and
  their merging (`ask`), the naming of read and written files (`file_io`),
  and the user's answers (`args`).
- `app/` is the command-line program around it: terminal, file system and
  network.
- `tests/` runs the library on concrete inputs.
