# text_components

Minecraft-style text components, verified with Verus.

A `RawTextComponent` is a tree: its content (plain text, a translated message,
a keybind, a game-state placeholder such as a scoreboard score, entity selector
or NBT path, or application-defined custom content), the components that follow
it, its formatting and its interactivity.

- `src/component.rs` – the tree, its abstract model (`ComponentModel`) and the
  measures (height, staticness) that order its resolution.
- `src/format.rs` – colours, formatting and click/hover behaviour, with the
  layering used when a placeholder is replaced.
- `src/translation.rs` – translated messages, translation tokens, and the
  splitting of translation texts at `%s` / `%n$s` placeholders.
- `src/resolving.rs` – the `TextResolutor` trait, resolution of a tree against
  a resolutor, building into a target format, and the laws of resolution.
- `src/custom.rs` – custom content.
- `src/codegen.rs` – what a build script needs to turn a language file into
  translation constants: reading its JSON entries (through `serde_json`),
  parameter counting, tokenising, and naming.
- `app/` – serialisable copies of the types (serde, databake) and the build
  script side of translation generation (reading the file, emitting Rust code).
