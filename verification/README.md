# kestrel_connector

Market-data connectors, one per provider, verified with Verus.

| Module | Provider | What it serves |
|---|---|---|
| `eodhd` | EODHD | end-of-day bars, intraday bars, polls of delayed quotes |
| `massive` | Massive | futures bars with exchange volume; the front month is chosen by volume |
| `capitalcom` | Capital.com | holds the API key; no client |
| `ib` | Interactive Brokers | holds host and port; no client |

`src/` is the verified library. It builds requests, takes in replies and decides what comes next; it
sends nothing. `app/` sends the requests over HTTP, decodes JSON, and offers each connector as a
`kestrel_chartkit::DataFeedAdapter`. Prices and volumes pass through the library as the bits of
floating-point numbers; the adjustment of end-of-day prices for splits is arithmetic on them and is
done in `app/`.

What holds of the library as a whole stands next to the code as public proof functions, among them:

- The front month is the one with the highest volume among the four usable contracts that expire
  next, over all the pages of the list that are read, and never a spread.
- A front month holds for an hour from the moment of its search.
- Bars from Massive come back ascending and in seconds.
- A poll returns what is newer than what was returned before, for each subscription, and nothing
  twice; a poll that fails loses nothing.
- A date that was written reads back as the same day, and dates sort as the days do.

No keys and no market data belong into this project.
