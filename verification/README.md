# thwack

A read-only terminal news reader for Hacker News and Lobsters, whose logic
is a library verified with Verus.

- `src/` is the verified library:
  - `chars`: character-level helpers with specifications (lines, words,
    trimming, searching, decimal numbers).
  - `text`: HTML to plain text, whitespace folding, entity decoding,
    comment cleaning, first-link extraction.
  - `hn`: reading comments out of a Hacker News discussion page.
  - `feed`: turning Hacker News items and Lobsters stories into posts and
    comments, and the order in which a Hacker News thread is walked.
  - `model`: posts, comments, sources and view modes.
  - `layout`: laying a comment thread out as lines (rails, collapsing,
    wrapping, scrolling to a comment).
  - `rails`: tree-aware rail prefixes.
  - `spans`, `selection`, `posts`: what each piece of the screen shows,
    by role, and the terminal hyperlinks.
  - `reader`, `input`: the reader's state and what each key does to it; the
    outside work a key asks for is returned as an `Action`.
  - `linked`: wrapping text whose links are known by character ranges,
    each wrapped line carrying the parts of the links that fall on it.
  - `rules`: the reading rules (break tags, attribute values, line breaks)
    stated in plain terms.
  - `laws`, `content`: properties that hold across operations, proved
    (what folding, cleaning, wrapping and colouring keep of their input,
    which comments are shown, how a thread's lines are owned and fit).
- `app/` is the program: network fetches, the terminal, the browser, and
  colours for each role.
- `tests/` run the library on concrete values.
