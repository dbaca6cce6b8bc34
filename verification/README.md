# create_rust_ios

A code generator for iOS apps that call into Rust. From a small JSON
configuration it writes the skeleton of a Rust library crate (`Cargo.toml`,
`.gitignore`, `src/lib.rs` with a C-callable greeting function) and an
`install.sh` that builds the crate for iOS and copies the static library and its
C bridging header into the iOS project. It then edits the app's Xcode
`project.pbxproj` so that the app links the library, finds it in the project's
`libs` directory and uses the generated bridging header.

The library in `src/` is verified with Verus:

- `text` — character-level search, replacement and trimming, with exact
  specifications (`find`, `rfind`, `replace_all`, `trim`, ...).
- `paths` — Unix path joining, final path components and parents, the next
  place to look for the configuration file (the same name one directory further
  up), and the expansion of a leading `~`.
- `configuration` — the configuration and the names derived from it.
- `generators` — the generated files, each specified character by character.
- `injectors::inject_pbxproj` — cutting a `project.pbxproj` into sections,
  editing them, and printing the file again; every step has an exact
  specification, including the errors and the inputs on which editing cannot
  go on.
- `injectors::properties` — laws of the edits: each edit keeps the sections'
  names and order and leaves the library mentioned (a successful edit leaves
  the library listed in the frameworks build phase and mentioned in the text); the build file, file
  reference and frameworks build phase edits change nothing when run a second
  time; so does the group edit, wherever the library stays mentioned after it
  (always, for a crate name without `(`); setting the search paths a second time
  in the same build settings changes nothing; printing sections distributes over
  concatenation; the install script and the edited project agree on where the
  library and the header live.
- `injectors::reading_back` — cutting printed sections into sections again
  gives the same names in the same order, each content preceded by the newline
  after its opening marker (for distinct names without `/*`, `*/` and `Begin `,
  and contents without `/* End `, all ASCII).
- `injectors::build_configurations` — after the search paths were set without
  error, the `buildSettings` blocks of both build configurations (around the
  first and the last `LD_RUNPATH_SEARCH_PATHS`) hold the search paths and the
  bridging header, for setting lines that contain neither
  `LD_RUNPATH_SEARCH_PATHS` nor `};`, on ASCII text.

Searches in `project.pbxproj` give UTF-8 byte offsets, and several steps then
use such an offset as a count of characters; the specifications model this
exactly, so on text with non-ASCII characters the edits land where those
numbers lead (and the panics that can follow, a negative length or a cut
inside a character, are stated as preconditions and reported by
`parse_panic_message`). The laws that locate edits by position are stated for
ASCII text, where byte offsets and character positions agree.

`app/` holds the program: looking for and reading the configuration file,
writing the files, running `chmod` and reading and writing `project.pbxproj`.
