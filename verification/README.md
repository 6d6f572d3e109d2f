# altair

Reads income and expense transactions from text, in two formats:

- CSV: a header line naming the columns `date`, `category`, `kind` and
  `amount` in any order, then one transaction per line;
- a `;`-separated list: one transaction per line, as
  `date;category;kind;amount`.

`src/` is the library, verified with Verus:

- `lexing`: trimming, splitting and cutting into lines, over `Seq<char>`;
- `io::parsing`: the field parsers (the date through chrono);
- `io::csv`, `io::text`: the two formats;
- `io`: reading an input in either format.

`app/` holds the program: it reads a byte stream line by line and prints the
transactions.
