# Tincan

Tincan keeps a development ledger in Markdown under `.tincan/`: one living
journal per day, decisions and learnings as UUID-named records, global
learnings lifted into `~/.tincan/global/`, and an agent skill that teaches the
workflow.

The library under `src/` holds the logic and is verified with Verus; the
command-line program under `app/` reads and writes files, runs Git and talks
to the terminal, and hands the library plain values.

## Layout

- `text`, `lines`, `util`, `numbers`, `order`: character-level helpers with
  their specifications (lines as `str::lines` splits them, trimming, joining),
  the order of texts, the component order of paths, and stable sorting.
- `frontmatter`, `document`, `model`, `ids`: reading and writing record
  frontmatter, validating records, UUID texts.
- `journal`, `journal_laws`: the daily journal, its merge, and what a written
  journal reads back.
- `store`, `supersession`, `lifted`, `roundtrip`: storage decisions that do
  not touch the disk, superseding decisions, lifted global learnings, and the
  read-back of new records.
- `cli`, `flags`: the command line, parsed into commands.
- `calendar`, `review`: calendar periods, review contexts, and the review
  across all registered projects.
- `search`, `workflow`: ranking, excerpts, related records and the decisions
  behind each command.
- `skill`, `git`, `workspace`, `branding`: skill installation plans, Git
  output interpretation, workspace discovery, the logo.

## Proved properties

Among the properties proved:

- a rendered record reads back with its id, kind, status, creation time,
  lists and heading, also when written as `id.md` in any directory
  (`roundtrip::lemma_record_read_back`, `lemma_written_record_reads_back`),
  when its values are single lines and its ids UUIDs;
- a written journal reads back as written, and repeating a journal update,
  at the same or a later time, changes nothing and adds nothing, when the
  date and the bullets are single lines (`journal_laws`);
- superseding a decision keeps its body, and superseding it again by the same
  decision changes nothing when no line ends in a carriage return and the id
  is one line (`supersession`);
- ensuring the Git exclude rule is idempotent (`store::lemma_exclusion_idempotent`);
- a lifted global learning reads back naming its source, so searching the
  source's id finds it (`lifted::lemma_lifted_reads_back`), and lifting the
  same learning again finds that copy (`lifted::lemma_lift_once`);
- installing twice leaves a current installation as it is, and a differing
  one is written over only with `--force` (`skill::lemma_install_twice`);
- the workspace lookup finds none exactly when no ancestor is configured,
  and otherwise the nearest one (`workspace::lemma_optional_lookup`).

## Notes on representation

- The review overview keeps the years that hold records as a strictly
  increasing list (`review::lists_years`, `review::review_years`) and counts
  each kind per year by walking the records (`review::year_count`). The rows
  are the ones a map from year to counts, walked in key order, would give; the
  list and the counts are stated directly, so the overview's text is proved
  without relying on a map iterator's specification.
- Changed files and offered skill roots are kept as duplicate-free vectors in
  text order, with that order and uniqueness as invariants, in place of sets of
  strings.
