# neo

A reading queue kept on disk. Each *frontier* is a directory with a list of
URLs still to read (`frontier.txt`, oldest first), the list of every URL
added and not deleted (`library.txt`), `meta.txt` and `crawl.jsonl`; the
file `current_frontier` names the selected frontier.

The library (`src/`) holds everything that decides: the command-line
grammar and its parser, the text formats of the list and selection files,
the rules on names and URLs, where the repository lives given the
environment, what each repository operation does (as a list
of file actions, given what was read from disk), the crawler's queue, retry
and page-keeping rules, word extraction for indexing, and the byte-size
notation. Verus proves the functions there against their contracts; the
few that call into std or `scraper` (`String::push`, `char::is_alphanumeric`,
CSS selection) do so through small trusted wrappers whose contracts are
stated, not proved. Laws that relate several functions (a list written then
read back is unchanged, a frontier is first-in first-out, no URL occurs more
often in a frontier than in its library, renaming or deleting the selected frontier moves or
clears the selection, ...) are proof functions next to the code.

`app/` is the program around it: reading files, carrying out the file
actions, the crawl's tasks and network requests, and printing. It also keeps
a copy of the command types with clap's derives, used only to word the
message for a command line that the library's parser refuses.

Modules of `src/`:

- `cli` — the commands, their grammar, `Cli::parse`
- `frontier` — `FrontierRepo`, paths, file actions, operations and laws
- `lines` — the URL-list and selection file formats
- `order` — string order and sorting
- `crawler` — the crawl queue, retries, kept pages, crawl report
- `index` — words of page text, index report
- `util` — `humansize`, `validate_url`
- `text`, `error` — string helpers and the error type
