# hardpass

A library and a command, `hp`, for local Ubuntu machines that run in QEMU.

- `src/` decides: where files are, which ports and which acceleration a machine
  gets, how QEMU and SSH are called, how configurations are merged and written,
  and what follows from what the other programs say. Every function states what
  it returns, and Verus proves it. Functions whose names begin with `law_` state
  what holds of several functions together.
- `app/` does: it reads and writes files, runs programs, talks over sockets and
  fetches images, as the library says. `main.rs` is the command, and `lib.rs`
  offers the same to other programs.
- `tests/` runs the library on examples.

What is taken on trust is marked `external_body`, `assume_specification` or
`external_type_specification`, with a comment that says what is believed of the
function behind it. A spec function marked `uninterp` names what such a function
gives, or what a value behind it holds; nothing is known of it but what those
contracts say.

A path is a text in the library. One that is not in UTF-8 has a text too, which
`os_text` makes of its bytes and turns back into them.
