# aurora_forge

A verified library for editing Neverwinter Nights modules, written in Verus.
Every function under `src/` carries a contract that Verus proves; the laws
that tie several functions together are public proof functions beside them.

## Layout

- `src/` — the library.
  - ERF containers: `erf_format` (the layout and its rules), `erf_write`,
    `erf_read`, `erf_laws` (a written container reads back as written) and
    `erf_order_law` (a container does not depend on the order of its
    resources).
  - Resources and text: `resource`, `bytes`, `text`, `digest`, `paths`.
  - Module editing: `timeline` (undo and redo), `commands` and `ai` (the
    checks on commands and on an assistant's proposals), `faction`,
    `journal`, `dialogue` (nodes and links, with removals that retarget
    links), `area`, `area_structure` (new areas and instance edits), `inventory`
    (placeable and store inventories),
    `blueprint` (blueprint lists and their edits), `instances`,
    `module_info`, `module_build`, `walkmesh_topology`.
  - Workspaces and deployment: `workspace`, `sync` (the Toolset folder),
    `deploy`, `profiles`, `profile_store`, `git`.
  - Generated maps: `mapgen` and `map_laws`.
- `tests/` — tests that run the library on concrete values.
- `app/` — the file, process and serialization side around the library:
  containers on disk, the guards that keep the source module out of
  workspaces and builds, JSON forms of the records, profiles saved in a
  workspace folder, Git queries, and walkmesh geometry, whose floating-point
  coordinates stay outside the library while their topology goes through it.

## Not in this crate

The editors that rewrite GFF documents (areas, blueprints, module
information), MDL models and NWScript sources need a GFF document model, a
model parser and a script compiler, which this crate does not provide. The
workspace session that keeps an edited module on disk (create, open, apply,
undo, redo, stage, build, deploy) is not in `app/` either: its apply step
rewrites GFF documents and compiles scripts, and its other steps work on the
state that apply step records. What those operations decide is in `src/`:
the undo and redo timeline, the checks on commands, proposals, staged
transactions and build outputs, the build plan, area inventories and
blueprint list edits over plain values, and the deployment plan.
