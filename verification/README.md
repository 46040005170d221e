# t2fanrd

A fan daemon for the Mac Pro 2019 (`MacPro7,1`) on Linux, with its rules verified by Verus.

- `src/` is the library: the configuration, the sensors and slots, the fans, the control loop, the
  reload of a changed configuration, and the decisions at start and end. Each public function states
  what it returns; the public proof functions state what holds of the library as a whole.
- `app/` is the daemon around it: files, signals, the clock, NVML, and what is computed in floating
  point (the speed curves and the smoothing of temperatures).
- `tests/` runs the library.

Two modules say what is believed of other crates: `ini_file` of the `ini` crate, and `non_empty` of
the `nonempty` crate. `sensors` believes one thing of the standard library, that
`core::str::from_utf8` decodes UTF-8.

| module | what it is about |
|---|---|
| `text`, `decimal`, `paths` | white space, splitting, whole and decimal numbers, names of files |
| `config`, `config_file` | what is configured for each fan, and the file that says it |
| `sensors` | readings, and the pool of sensors that is read once a tick |
| `slots` | which GPU sits in which physical slot |
| `setup` | which sensors to open, and where each fan finds its temperatures |
| `fan_controller` | a fan's limits, temperature and speed |
| `temp_loop` | the ticks of the control loop |
| `reload` | a changed configuration for fans under control |
| `startup` | from the start to the first tick, and from the last tick to the end |

On the first run there is no configuration: a file is written that leaves every fan to the SMC. Give a
fan its sensors there, and take out its `auto=true`, to have the daemon control it.
