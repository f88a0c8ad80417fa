# editor_backend

Version-control and scheduling logic of an editor, written and proved in Verus.

- `src/perforce`: the output of `p4`, the commands that are run, pending
  changelists, file history and blame, and the repository that ties them
  together. The repository says which commands to run and what their output
  means; it runs nothing itself.
- `src/panel`: the panel that shows the pending changelists.
- `src/schedule`: messages that are sent later, from what the user types to what
  is stored, shown and fired.
- `src/update_url.rs`, `src/checkout.rs`: the address of the update server, and
  how a read-only file is opened.
- The other modules hold text, numbers, dates, paths and orderings.
- `tests`: tests of the library.
- `app`: what runs `p4`, looks at files, reads the clock and stores messages.
