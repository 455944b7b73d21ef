# cube2hdr

Converts six square cubemap faces (JPG/PNG) into one equirectangular panorama in
Radiance `.hdr` format. The conversion is output-driven: every output pixel is
traced back to a face, so there are no gaps or seams.

The library under `src/` is written in Verus. Its functions carry contracts that
are proved, and the properties that span functions stand beside them as public
proof functions named `law_*`.

| Module | Holds |
|---|---|
| `float32` | single-precision values as bit patterns: order, sign, rounding down |
| `color` | sRGB and linear inputs, the lookup table for bytes |
| `face` | from a decoded image to a face of linear light |
| `cubemap` | six faces, texels, bilinear and bicubic sampling |
| `sampling` | what sampling keeps: borders, texel centres, single colours, single faces |
| `projection` | panorama position to direction, direction to face |
| `render` | settings, output dimensions, supersampled rendering |
| `panorama` | subsamples traced back to the faces, the whole panorama |
| `rgbe` | shared-exponent pixels |
| `rle` | adaptive run-length coding of a component plane |
| `hdr` | scanlines, header and file |
| `text` | decimal numbers |

Arithmetic that rounds is not part of the library: functions that need it take it
as closures, and their contracts hold for any such closures. The program under
`app/` supplies single-precision arithmetic, reads the faces, writes the file and
handles the command line.

## Face convention

OpenGL-style, right-handed, Y-up:

```
--px  +X  right
--nx  -X  left
--py  +Y  up
--ny  -Y  down
--pz  +Z  back
--nz  -Z  front   <- horizontal centre of the panorama
```
