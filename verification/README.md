# ecore-launcher

An opt-in launcher for Linux desktop applications on reliably detected
efficiency cores. The library decides; the program around it observes the
system and acts.

- `src/` is the library. Every item in it is verified with Verus: what a
  function returns or changes stands in its `ensures`, over the spec functions
  beside it. Laws that span several functions stand in the `laws` modules, in
  `topology/corroboration.rs`, in `integration/round_trip.rs` and beside the
  types they are about.
- `tests/` runs the library on concrete values.
- `app/` is the program: the command line, the terminal interface, files,
  processes and signals.

| Module | What it decides |
| --- | --- |
| `topology` | which CPUs are online, how they form cores, which cores are efficient |
| `discovery` | which installed applications there are and what starts them |
| `registry` | which applications are managed, and with what policy |
| `launcher` | what is launched where and when, and what a launch helper does |
| `supervisor` | which processes are kept on their CPUs |
| `integration` | what starts at login, and which autostart entries are suppressed |
| `doctor` | whether launching is possible, and what stands in its way |
| `cli` | what the commands choose, change and tell |
| `replace` | how a file is replaced as a whole |
| `float`, `rounding` | floating-point numbers by their bits: quotients, comparisons, decimal texts |
| `path`, `text`, `order` | paths as bytes, texts, sorting |

A decision that needs the system in between is a state machine: it says what to
do next and takes what came of it.
