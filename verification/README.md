# swarf

A granular-material sandbox: every pixel is a cell of real material with a
density and a temperature, falling, flowing and piling under its own rules. The
simulation runs on the GPU; everything around it that is decided with whole
numbers is a Verus library whose contracts are proved.

| | |
|---|---|
| LMB / RMB | paint / erase |
| MMB or space + drag | pan |
| scroll | zoom at cursor |
| `1`-`0` | material hotbar |
| `Q` / `E` | cycle all materials |
| `[` / `]` | brush size |
| `P` / `N` | pause / single step |
| `R` | regenerate world |

## Headless pictures

```
swarf --shot out.png --scene lab --ticks 6000 --zoom 1 \
      --centre 2100,1090 --drop sand@2100,850,60
```

`--scene lab` is a bare rig -- flat floor, a step, a sealed vessel -- for judging
the physics. With `--every K` a numbered frame is written beside the file every K
ticks. `swarf --help` lists the rest.

## Layout

`src/` is the verified library.

| module | holds |
|---|---|
| `materials` | the material table and the records built from it |
| `world` | cell packing, the lab scene, and what terrain noise turns a cell into |
| `sim` | chunk grid, partition phases, staged uniforms, brush clipping, batches |
| `clock` | ticks per frame, frame statistics, seeds |
| `state` | what keys and mouse do |
| `camera`, `render`, `gpu` | view limits, view uniforms, target size, shader sources |
| `args`, `path`, `shot`, `picture` | command line, frame names, capture sequence, PNG files |
| `single` | comparison of single-precision numbers by their bits |
| `bytes`, `text` | memory images of words; decimal numbers and text |

Public proof functions whose names start with `law_` state what holds of the
library as a whole.

Two outside crates are called from the library, behind functions whose contracts
are trusted: `bytemuck` in `bytes`, and `png` in `picture`.

`app/` is the program around the library: window, GPU resources, files, threads,
and all floating point arithmetic (noise, camera, colour conversion). It reads
its shaders from `shaders/` in the working directory. Its own tests need a GPU.

`tests/` runs the library against concrete values.
