# flow_texpack

A texture-atlas packer: it loads images, optionally trims their transparent
border, packs them into power-of-two atlases (64 to 8192 pixels a side) with
`flow_rectpack`, draws the atlas images and writes a JSON or plain-text
descriptor of where each texture went.

The library in `src/` is verified with Verus:

- `pixels`: RGBA pixel buffers and their mathematical view.
- `texture`: textures, decoding image bytes, trimming to the opaque
  bounding box, copying pixels (upright or turned 90 degrees clockwise),
  scaling and hashing.
- `rectpack`: the declarations through which `flow_rectpack` is called.
- `packer`: one atlas: packing textures from the end of a list, repeated
  textures (`unique`), growing (`adjust_size`) and shrinking the atlas, and
  the proof that, for a packer that holds no textures yet, placed textures
  lie inside the atlas and do not overlap.
- `atlas`: packing all textures into as many atlases as needed.
- `sorting`: the stable sort by area that comes before packing.
- `render`: drawing an atlas, and the proof that it shows each texture intact.
- `descriptor`, `document`: the JSON and plain-text descriptors.
- `options`: the option types and file extensions.

`app/` is the command-line program around it: argument parsing, walking the
input directories, reading image files and saving atlas images, premultiplying alpha
and working out scaled sizes (floating point), the input hash file, and the
console output.
