# lam_tui

The terminal client of the lam coding-agent runtime, with a core that is
verified by Verus.

- `src/` is the core: text layout and wrapping, the input line, conversations
  and their transcripts, the palettes and key bindings, journal projection,
  provider configuration, sessions, and the sign-in flow. Every function there
  carries a contract. `conversation_laws` and `desk_laws` hold properties that
  span several of them; other laws stand beside what they are about.
- `app/` is the program around it: the terminal, files and locks, the network,
  and the agent runtime. It hands the core plain values and carries out what
  the core asks for.
- `tests/` runs the core on concrete values.

What the core takes from outside crates goes through small functions whose doc
comments say what is taken on trust: display widths and grapheme clusters,
Markdown, JSON, Base64, SHA-256, random bytes, and the layout of rows.
