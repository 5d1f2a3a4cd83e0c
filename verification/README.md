# runner

A step runner: it takes a tree of steps, each a command, a collection of other steps, or a step with
a command in the background, and runs the commands one after the other, showing what it does and
collecting what came of it.

What is run next, what is shown and what is counted is decided by a verified library; the outside
world is left to a thin program around it.

- `src/` is the library, verified with Verus.
  - `options`, `manifest`: what the runner is asked to do, and the manifests that it looks into.
  - `step`, `context`, `status`: the tree of steps, places in it, and what came of the steps.
  - `clock`, `logs`, `style`, `message`: the lines that a run shows.
  - `trace`: what a run does, as a function of the step and of the events from outside.
  - `run`: the runner itself, which goes from one event to the next along that trace.
  - `laws`: what holds of every run.
  - `environment`, `command`, `kill`: how commands are launched, with which environment variables,
    and how processes are got rid of.
  - `spread`, `grpc`, `text`: lists, the decisions of a gRPC server, and text building.
- `app/` reads the clocks, spawns processes, parses the command line and the configuration files,
  and serves gRPC.
- `tests/` run the library.

What is taken on trust stands in the library behind small functions, whose comments say what they
call: `chrono` and `std` for times and durations, `colored` for colours, `itertools` to concatenate
lists, and a few functions of `std`.
