# bevy_axis_input_ext

Input configuration for an axis-input map, verified with Verus.

A configuration holds the settings of a default file and of a user file:
`[profile][mapping]` tables of scales, dead zones and binding groups, the
profiles of each owner, excluded and included bindings, repeat timings and the
dead zones of bind mode. Getters read the user settings first and fall back on
the defaults; setters write the user settings and mark the configuration
unapplied and unsaved; `apply`, `save` and `restore` ask for the input map to be
rebuilt, keep the user settings as the saved ones, or go back to them.

The library is generic over the mapping `M`, the binding `B` and the scalar `F`.

- `src/keys.rs`, `src/entries.rs`, `src/collections.rs`: maps with distinct
  keys, kept as vectors of entries.
- `src/values.rs`: the settings of one file.
- `src/resources.rs`: the configuration and its operations, each specified
  over `ConfigView`.
- `src/laws.rs`: what holds across the operations, and across any run of
  them.
- `src/order.rs`: the order in which profiles are visited.
- `src/input_map.rs`: what each owner's input map is built from.
- `src/records.rs`: the records a file is read as, and the lines the settings
  are written as.
- `app/`: the Bevy plugin and systems, file I/O, the `conf_lang` reader and
  writer, and the `f32` arithmetic of the input map.
