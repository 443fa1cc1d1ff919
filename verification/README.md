# fanctl

Fan control and temperature monitoring for Linux machines with `hwmon` chips,
with its logic verified in [Verus](https://github.com/verus-lang/verus).

`fanctld`, a daemon, drives each fan by a temperature curve, a fixed duty, or
the chip's own algorithm, and serves its state over a Unix socket. `fanctlui`,
a terminal client, shows that state, changes modes, edits curves, and has fans
calibrated: a sweep through the duties finds the range a fan responds to.

## Layout

`src/` is the library. Everything in it is proved.

| Module | What it holds |
| --- | --- |
| `curve` | temperature to duty, piecewise linear |
| `sweep` | what a calibration sweep says about a fan |
| `hwmon` | chips and their files, on a picture of the sysfs tree; the writes that set a mode |
| `register` | the register value of a duty, and the duty of a register value |
| `temps` | readings of chips, lm-sensors and NVIDIA GPUs |
| `config` | the configuration, its default path, and a first one for a machine |
| `daemon` | the engine, its sweeps, the answers to clients, and the laws they keep |
| `tui` | the client: what its keys and replies do, and what it shows |
| `ipc`, `ctl`, `args`, `summary` | the protocol, `--set`, the command lines, the text dumps |
| `quantity`, `double`, `number`, `text`, `order`, `json` | what the rest is built from |

Temperatures, duties and times are whole numbers of billionths. Where they are
shown with fewer digits, or scaled to a register, they go by the nearest double.

The library does no I/O. It is given a picture of the machine and gives back
the writes to carry out; the outcome and a new picture go back to it. `app/`
holds the two programs around it: files, sockets, signals, threads, NVML, the
terminal, and the JSON and YAML formats.

Public proof functions named `law_...` state what holds of the library as a
whole, such as that a sweep restores the fan's mode, that a failed save leaves
the configuration as it was, or that a rising curve never cools a hotter machine less.

What is believed without proof: `String::push`, `String::pop`, the `{:?}` form
of a string, and `serde_json`'s parse of a document.
