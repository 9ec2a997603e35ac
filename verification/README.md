# ship_cache

The cache builder of a ship model reads the hull and compartment meshes of a
ship, computes hydrostatic tables for many heels, trims and draughts, and
writes them as text files to a cache directory.

`src/` is the part that is proved with Verus:

- `text`: decimal rendering of indices and counts (file and directory names);
- `cache_file`: the text of a cache file, the report of a failed build, and
  which slice files of a cache between frames are written or removed;
- `query`: the database queries of a ship's frames and compartments;
- `data_array`: the array of records a query answers with, and its errors;
- `mesh_index`: the triangle indices of STL and OBJ meshes;
- `registry`: the registry of compartments, by file stem, in an `IndexMap`;
- `rebuild`: the jobs of a rebuild of the caches and the run through them,
  which stops at the first failure.

`app/` is the program around it: reading files and meshes, the
floating-point geometry, the worker threads, and the loop that performs the
rebuild jobs.
