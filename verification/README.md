# nctui

A terminal viewer for NetCDF4 / HDF5 datasets: a tree of groups and
variables, a fuzzy search, a heatmap with automatic downsampling, a
histogram with an adjustable bin count (4 to 80), a table preview, and a
slicer that picks a 2D slice out of an n-dimensional variable.

## Layout

- `src/` is the library, verified with Verus. Each module states its
  behaviour in `requires` / `ensures` contracts over mathematical models
  (`Seq`, `Set`, `int`) and proves them:
  - `text`: character sequences, decimal numbers, substring / prefix /
    subsequence matching.
  - `ordered_map`: the insertion-ordered `IndexMap`s of the dataset
    description, seen through their entries.
  - `dataset`: the dataset description built from a file's listing, the
    search catalog, variable paths and coordinate variables.
  - `search`: the search state and its filter.
  - `tree`: the tree navigator's rows, expansion and selection.
  - `slice_picker`: dimension roles, plot modes and the picker.
  - `slicing`: row-major strides, slice planning and extraction.
  - `table_preview`: table scrolling, the visible window and truncation.
  - `layout`: overlay geometry, tree scrolling, heatmap sampling.
  - `labels`: the text of rows, titles and bars.
  - `session`: key dispatch, bin counts, what selecting a row loads, and
    the status messages.
- `app/` is the program around the library: file reading, the terminal
  loop, drawing, and the floating-point statistics and plots.
- `tests/` exercises the library on concrete values.
