# wallie

A wallpaper manager for the Linux desktop that switches wallpapers by rules:
wallpapers carry tags, rules activate tags with a weight at a level while
their condition (time of day, weekday, month, date) holds, and the next
wallpaper is drawn with a probability proportional to its weight.

Layout:

- `src/` is the verified library (Verus):
  - `rules.rs`: rules, conditions and their evaluation on the local clock;
  - `dataset.rs`: tags, wallpapers, the database and the weighing of the
    wallpapers by the active rules;
  - `tables.rs`: the mathematical model of the weight tables;
  - `laws.rs`: properties of the weighing proved for all inputs;
  - `weights.rs`: weighted random choice through `rand`;
  - `loader.rs`: the heap and simple loaders;
  - `schedule.rs`: play/pause state and the daemon's report;
  - `renderers.rs`: the renderer command plans;
  - `options.rs`, `client.rs`: the command lines of daemon and client.
- `app/` runs the library: file system scans, processes, sockets, RON and
  JSON. Run as `wallie-daemon` it is the daemon, under any other name the
  client.
- `tests/` exercises the library on concrete values.
