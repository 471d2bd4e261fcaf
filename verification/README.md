# pod0_storage

The user-data erasure core of the pod0 storage layer, written in Verus.

An erasure removes every kind of user data the app keeps, survives a crash
at any point, and leaves a fresh store behind:

- `inventory` validates the list of targets to erase (every kind present,
  each placed as its kind requires, under an allowed root) and orders it.
- `marker` builds the durable intent record written before anything is
  touched; `erasure` decides each step of a run (quarantine, native actions,
  recreation, cleanup) from the marker and what the host finds on disk.
- `recovery` lists interrupted erasures and checks that a marker read back
  describes the inventory it claims to erase.
- `projection` reads the retained settings (through `serde_json`) and
  builds and checks the application state an erasure keeps.
- `path` normalizes paths and resolves a target from what the host found
  at its ancestors.
- `evidence` frames the digest that proves a quarantined target unchanged.
- `resume` proves, over a model of what exists on disk, that an erasure
  interrupted at any step resumes without refusal and completes.

`src/` is verified; `app/` holds the filesystem, SQLite and marker-file
work that carries out what the core decides.
