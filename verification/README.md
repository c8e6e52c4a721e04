# stock_analysis

A Telegram bot that watches Taiwan stocks: quotes from Yahoo Finance, the
TWSE and TPEx stock lists, price alerts with a 30-minute cooldown, pushes
during trading hours, AI analysis, and an allow-list of users.

The library in `src/` is verified with Verus; each public function states
what it returns or changes. Prices are held in hundredths (cents); an
alert threshold may also be an infinity or not-a-number, as a float can,
and amounts are written as the `f64` nearest to them is written.

- `text`, `numtext`, `assoc`: text handling, decimal reading and writing,
  association lists.
- `config`, `user_store`: settings and per-user data, with their laws.
- `searcher`, `fetcher`, `clock`: the stock list, quotes and daily bars,
  TWSE holidays, Taiwan time and trading hours.
- `alerts`, `formatter`, `analyzer`, `scheduler`: alert checks and their
  cooldown, chat messages, the AI prompt, cron expressions.
- `bot`: the decision of each command.

`app/` is the program around it: Telegram, HTTP, files and the scheduler.
