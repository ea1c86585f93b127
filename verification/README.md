# lightly-rusted

A small patch-based ray tracer driven by a JSON scene graph.

- `src/` is the verified library:
  - `args`: the command line (`--scene`, `--size WIDTHxHEIGHT`, `--workers`), read against
    a specification of every accepted and refused input;
  - `decimal`: unsigned decimal numbers as `str::parse` reads them;
  - `tiling`: the split of the image into 96-pixel patches and the pixels of a patch, with
    the proof that the patches cover every pixel exactly once;
  - `canvas`: the output image (an `image::RgbImage`) and its assembly from rendered pixels,
    with the proof that rendering every patch gives every pixel its colour;
  - `scene`: the scene graph (nodes with meshes, materials and children) and the scene's
    lights and materials;
  - `mesh`: the triangles of an indexed mesh.
- `app/` is the program: file and console I/O, the thread pool, and the floating-point
  work (camera, intersections, shading, transforms, textures).
- `tests/` runs the library on concrete inputs.
