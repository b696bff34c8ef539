# game_translator

A verified library for localising games, mods and books, checked with Verus,
and a small command-line front end around it.

The library reads RPG Maker MV/MZ projects, Ren'Py distributions and RimWorld
mods into translatable segments, writes translations back as separate patch
folders with hashed manifests, plans installing and removing those patches,
and keeps a per-project patch history. It imports books from TXT, Markdown,
EPUB and DOCX, tracks their translation segment by segment, and exports
Markdown, DOCX and EPUB 3 manuscripts and the line layout of print copies.

## Layout

- `src/`: the library. Its functions are proved by Verus against
  `requires`/`ensures` contracts over spec models (`Seq`, `Map`, views of
  each type); the trusted wrappers below are not proved.
  - engines and content: `content`, `rpgmaker`, `renpy`, `rimworld`,
    `language_pack`, `adapters`, `translations`, and `rpgmaker_laws`;
  - patches: `patch`, `patch_ops`, `history`, `translation_run`, and
    `patch_laws`;
  - books: `book`, `book_text`, `book_xml`, `book_import`, `book_export`,
    `book_archive`, `book_workflow`, and `book_laws`, which states and proves the properties
    that hold across those functions;
  - settings and support: `desktop`, `providers`, `credentials`, `errors`,
    `json`, `xml`, `text`, `order`.
- Calls into `quick-xml`, `serde_json`, `sha2`, `encoding_rs`, `zip` and
  `keyring` sit behind small trusted wrappers whose doc comments say what
  is assumed of them; the `keyring` wrappers claim nothing, since their
  outcome rests on the platform's credential store.
- `tests/`: executable tests of the library.
- `app/`: the command-line program (file system, PDF rendering with
  `printpdf`, serde copies of the library's types); ZIP packaging is the
  library's `book_archive`, the app only writes its bytes. It holds
  no rules of its own; it reads, calls the library, and writes.

## Checking

Verification runs Verus on `src/lib.rs`; the tests run with the outside crates
linked.
