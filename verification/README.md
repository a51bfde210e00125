# siglus_scene_vm

The logic of a runtime for visual novels, verified with Verus: how pictures,
sounds, faces, saves and script commands are handled, with contracts that say
what every function gives for every input.

- `src/` is the verified library. It holds no I/O but a look at the clock: where a
  file, a device or the time zone has a say, a function answers what is to be
  done next, or takes what was found as an argument.
- `app/` is the ordinary Rust around it: windows, files, the network, the mixer,
  the environment, floating point, and the entry points for other languages.
- `tests/` runs the library on concrete values, with the outside crates linked.

## Layout of `src/`

| Modules | What they hold |
| --- | --- |
| `text`, `text_parts`, `text_map`, `number_text`, `bytes`, `paths`, `table` | texts, numbers, paths and tables that the rest is written with |
| `assets`, `composed_descriptor`, `image_compose`, `image_loading`, `image_store`, `image_manager`, `movie` | pictures: loading, drawing over each other, and which stay in memory |
| `font_fallback`, `font_report`, `glyph_atlas`, `jpeg_backend` | faces and characters, and room for decoded pictures |
| `audio` | WAV files, slots of sounds, and voices that are played faster |
| `runtime` | script values and commands, waits, the stack of procedures, masks of wipes, the list of saves |
| `vm` | continuations and records of saves |
| `aether_host`, `aether_audio_bridge`, `emote_backend`, `render`, `wasm_vfs` | what hosts in other languages are answered |
| `desktop_icon`, `desktop_chihaya_bench`, `lang_variant`, `perf_flags`, `platform_time` | windows, languages, flags and the time |

Results of outside functions that a contract speaks of have names without a
definition; each is tied to its call by one small wrapper, whose doc comment
says what is taken on trust.
