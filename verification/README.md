# sift

A feed reader's core, verified with Verus: byte and character scanners,
tokenizers for XML and HTML, an RSS feed parser, a renderer of HTML tokens
as text, and the terminal interface's state and screen buffer.

- `src/bs.rs`, `src/cursor.rs`, `src/text.rs`: scanning bytes and UTF-8 text.
- `src/xml/`: XML tokenizers over bytes and over characters.
- `src/html/`: HTML tokenizers — one that follows the states of the HTML
  standard's tokenization closely (`full_tokens`; character references by
  name are not looked up but handed back as written), a partial one (`tokens`), one
  for RCDATA and the end tag that closes it (`byte_tokens`) and a simple one
  (`old_tokens`).
- `src/formats/`: RSS feeds, the Dublin Core and Atom names, and an HTML
  tokenizer with a renderer.
- `src/rss.rs`, `src/new_rss.rs`: feed readers over the XML tokens.
- `src/interface/`: subscriptions, commands, and the terminal back buffer.
- `app/`: the program — fetching feeds, the terminal, the event loop.

Each tokenizer states what one call does as a spec function over the input
and its state taken as values, and the code is proved to do that. Where a
tokenizer departs from the standard, the html5lib cases in
`tests/tokenizer_tests.rs` list the runs that do not give the standard's
tokens.
