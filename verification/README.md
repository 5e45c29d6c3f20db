# unrot

Finds broken symbolic links and helps repair them. For each broken link it
looks for files named like the missing target, shows them ranked, and lets
the user relink, skip or remove the link. With `--batch-confirm` the
decisions are collected first, shown together, and carried out only after
one final confirmation. Directories named in the ignore list (`-I`) are left
out of every walk, and nothing inside them is offered as a candidate.

Layout:

- `src/` — the verified library:
  - `text.rs`: characters of strings, Unicode whitespace trimming, ASCII case
    folding, substring search, decimal rendering;
  - `path.rs`: Unix path syntax (components, final name, parent, join,
    equality);
  - `fuzzy.rs`: candidate search over the entries of a walk (ignored
    directories left out), scoring and ranking;
  - `input.rs`: reading the user's answer;
  - `safety.rs`: relink warnings and the symlink-loop walk;
  - `display.rs`: rendering of a repair case;
  - `model.rs`: repair cases, actions, summaries;
  - `session.rs`: the repair session as a state machine, with batch
    confirmation.
- `app/main.rs` — the command line program: argument parsing, directory
  walks, terminal and file-system work.
- `tests/` — tests of the library.
