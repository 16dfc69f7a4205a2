# Microvisor

Microvisor manages SELinux protection profiles. A profile names an application and its data
directories. For each profile Microvisor installs a base module with types of its own, labels the
executable and the data, and installs a deny module that keeps every other subject away from the
data.

The decisions are a library that is verified with [Verus](https://github.com/verus-lang/verus).
The program around it reads files, runs commands and prints.

## Layout

- `src/` is the library.
  - `model`, `policy`: profiles, the rules for them, and the modules that are generated from them.
  - `yaml`, `config`, `template`: the restricted YAML subset and the configuration file.
  - `path`, `text`, `order`, `search`, `id`, `bytes`, `error`: what the rest is stated with.
  - `files`, `command`, `environment`: what is demanded of files, programs and the system.
  - `build_config`, `sources`, `compile`: building modules from the installed reference policy.
  - `engine`: validation of profiles against the file system and each other, snapshots, the steps of
    installing and removing, transactions, batches, rollback, status and supervision.
  - `cli`, `diagnostics`: the command line.
  - `helper`, `helper_client`, `desktop`: the decisions of a privileged helper and its front ends.
- `app/` is the program. It answers what the library asks for: it runs a command, looks at a path,
  reads or writes a file, and hands the result back.
- `tests/` runs the library.

## How the engine is stated

Whatever alternates with work outside the library is a state machine: `Procedure`, `Inspection`,
`Transaction`, `Rollback`, `Batch`, `RemovalStage`. Each says what it wants done next and takes the
result. Its contract is a pure transition function, over which the laws are proved.

`engine::host` models what the steps do to a system. `engine::recovery` proves what follows for
whole transactions and batches, among others:

- a committed profile is in force and its snapshot is stored;
- a failed transaction, wherever it stops, leaves the system as it was once its cleanup is done;
- a failed batch, once rolled back, leaves the system as it was before the batch;
- a second batch for the same profiles changes nothing (`engine::reapply`);
- a removed profile leaves nothing behind;
- work on one profile leaves the protection of all others in force.

`engine::saving` does the same for the files of a snapshot: it is replaced at once, or not at all.

## What is believed without proof

The contracts of a few calls into `uuid` and the standard library, each in a small function with a
comment that says what is claimed: in `id`, `bytes` and `text`.
