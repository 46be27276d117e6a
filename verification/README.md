# ufo

UFO reads accelerator lattices written in MAD, compiles their lines into bytecode for a
tracking interpreter, and writes lattices back in the formats of other codes.

The library in `src/` is verified with Verus:

- `syntax`, `params`, `mad` read MAD text: comments, statements, definitions, parameter
  maps, element construction and line resolution, against a specification of the whole
  reading (`mad::parse_mad_spec`);
- `labels`, `lattice` hold elements and lines in label order and expand lines;
- `instruction`, `bytecode` encode interpreter instructions, words and instruction-buffer
  chunks; `cubecl` and `opencl` lay programs out for the GPU kernels and pick devices;
- `export` writes lines and lays out lattice files; `stable_aperture`, `compiler`,
  `error`, `flags`, `text` hold the rest.

Numbers are kept as their text in the library; `app/` reads them as floating point, holds
the element physics, the compiler and the element export, and provides the command-line
program (`load`, `compile`, `dump`).
