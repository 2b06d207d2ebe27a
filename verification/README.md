# fallen_leaves_world

A procedural world generator. The integer core is a verified library
(`src/`); the program around it (`app/`) does the floating-point noise,
colour ramps, file output and 3D viewing.

## Library (`src/`)

- `clcg_seed_gen` – seeded combined linear congruential generator.
- `helpers` – index scheme of the icosahedral globe (ten rhombic tiles and
  two poles) and its six-direction neighbour walk.
- `worldgen_pipeline` – layout of the hex globe's data buffer.
- `simplex_noise` – integer mixing that picks a simplex gradient.
- `spotted_influence` – seeded placement of influence blobs and peaks.
- `moisture_map` – reach of a water body's moisture by its size.
- `wind_column_gradient_map` – distance of every cell to the nearest shore
  (multi-source breadth-first search) and the upwind neighbour of every land
  cell under a flow order.
- `img_gen` – an RGB raster with clipped squares, Bresenham lines and flow
  arrows, used to overlay the upwind field.
- `assign_biome` – the biome kinds, the rule table and the per-cell choice
  of a biome.
- `verify_biome_params` – consistency checks of the rule table: invalid
  intervals, per-axis coverage, overlapping rules, holes in the joint
  climate coverage.
- `terrain_renderer`, `heightmap_view`, `globe_renderer` – viewer state,
  palette, legend layout and the biome texture.

## Program (`app/`)

```
fallen_leaves_world world                # generate a map, write images to output_imgs/
fallen_leaves_world heightmap            # generate a map and view it in 3D
fallen_leaves_world globe                # view the hex globe's noise
fallen_leaves_world verify-biome-params  # report on the biome rule table
```
