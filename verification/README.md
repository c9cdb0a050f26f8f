# chumod_loader

A mod loader for CHUNITHM (SDHD), written as a verified library with a thin
Windows layer around it.

- `src/` is the library, verified with Verus. Each module states what it computes
  in `requires`/`ensures` contracts over mathematical models (`Seq`, `Map`, `int`):
  - `dependency`: mod keys and the dependency load order (Kahn's algorithm, first in,
    first out; mods in or behind a cycle are left out);
  - `hijack`: the x86 instruction-length decoder that decides how many bytes of the
    game's entry point to move aside, and the bytes of the entry stub, trampoline
    and `jmp`/`call rel32`;
  - `rtti`: finding a class's vtable through the MSVC RTTI records in `.rdata`;
  - `iat`: finding the import-address-table slot of an imported function;
  - `pe`: the game's image size and sections, its version resource, the loader's
    directory;
  - `memory`, `early_patch`: byte-pattern search and the AppUser check;
  - `config_toml`, `config_ini`: the per-mod configuration calls;
  - `ipc`, `hooks`, `d3d9`, `proxy`: the services, topics, hooks, callback slots
    and frame limiters that mods use;
  - `lifecycle`: the order of a mod's entry points as a step function (init, keep
    or free, `on_ready` after every init, `shutdown` before `FreeLibrary` in reverse
    order), which the DLL drives;
  - `hot_reload`, `metadata`, `log`, `crash_report`, `crash_zip`, `fmt`, `text`,
    `bytes`: reload bookkeeping, the loader-version gate, log lines and the console
    banner, crash texts, the stored ZIP writer with its CRC-32, and number and text
    formatting.
- `app/` is the DLL around it: `DllMain`, the entry hijack, the console, loading the
  mods with `LoadLibrary`, the C API table handed to mods, the Direct3D 9 hooks, the
  crash handlers and window; and the `d3d9.dll` proxy's exports and device hooks.
- `tests/` exercises the library on concrete inputs.
