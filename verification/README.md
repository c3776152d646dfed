# spark_renderer

The decisions of a Vulkan deferred renderer, verified with Verus: the render
graph (pass ordering, resource lifetimes and aliasing, descriptor writes and
layout transitions), device and swapchain selection, the mip, depth-pyramid
and bloom chains, bindless slot allocation, per-frame buffer sizing, the
acceleration-structure cache and shader binding table layout, and the
packed vertex format.

- `src/` is the verified library; every function there carries a contract.
- `tests/` runs the library on concrete values.
- `app/` is the Vulkan side: it queries the device through `ash`, records
  commands, and asks the library what to do.
