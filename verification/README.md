# stocks_api

The rules of a personal share-portfolio service, verified with Verus, and the
HTTP service around them.

- `src/` is the library. Every rule of the service stands here with its
  contract: which transactions are accepted and what cash they move, how a
  holding is valued, which dividends are recorded, which rows a dashboard list
  shows, what a portfolio was worth on each day, who may call the service.
- `tests/` runs the library on concrete values.
- `app/` is the service: it reads and writes the database, asks the price feed,
  and turns requests into calls of the library and results into JSON.

## Numbers

Prices and amounts are floating-point numbers, which Verus does not reason
about. The library keeps them by their bits (`number::Number`), compares them
exactly as IEEE 754 does, and writes every computation down as a
`number::Formula`. A caller hands in the function that evaluates formulas; the
contracts say which formula each figure is the value of. Parsing and printing
numbers is the caller's part too.

## Layout

| Module | What it holds |
| --- | --- |
| `text`, `order`, `textmap`, `number`, `dates`, `json` | the ground: text, order, maps, numbers, days, JSON |
| `reply`, `access`, `config`, `settings`, `meta`, `events` | refusals, access, settings and what clients are told |
| `symbols`, `fields`, `marks`, `context`, `rename` | symbols and what is stored about them |
| `quotes`, `bars`, `rates`, `debounce`, `refresh` | prices, bars and rates, and when they are fetched |
| `indicators`, `stops`, `valuation`, `risk`, `overview`, `portfolio`, `lists`, `sales` | what the screens show |
| `transactions`, `settle`, `cash`, `csv` | trades, the cash they move, and the cash ledger |
| `dividends`, `records` | dividends reported, paid and recorded |
| `history` | what the portfolio was worth on each day |
| `watchlist`, `drawings`, `analysis` | the watchlist, chart drawings, and analysis by a language model |

Laws that relate several functions are public proof functions; their names say
what they state, such as `settle::settling_again_changes_nothing` or
`portfolio::the_totals_are_what_the_holdings_show`.

What is believed without proof is declared in `text`, `dates` and `json`: calls
into `std`, `chrono` and `serde_json`, each with a comment that says what is
claimed of it.
