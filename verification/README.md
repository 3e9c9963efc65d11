# ideal_city

The rules of a shared city: who owns what, what may be built and where, what a market does with an order, what a
tool is worth, what rent and storage cost. The state is a set of tables in memory, and every operation on it has a
contract that Verus proves.

- `src/world/` is the city as it is laid out: districts, plots, items, recipes, tools, creatures.
- `src/persistence/` is what the city remembers, and the operations that change it. `db.rs` and `rows.rs` hold the
  tables; each other file holds one subject, its model, its operations and its laws.
- `src/tutorial_config.rs`, `src/zone_config.rs`, `src/market_config.rs` and `src/crafting_config.rs` are what can be
  configured.
- `src/table.rs`, `src/tally.rs`, `src/text.rs` and `src/numerals.rs` are what the rest is built from.
- `tests/` runs the library.
- `app/` keeps the city in an SQLite database and reads its configuration files.

A contract says what an operation returns and what the tables hold afterwards, as a function of what they held before.
Row ids are random, so a contract says of the new rows that there are some ids with which the result is exactly this.
Functions whose names start with `law_` state what holds across operations: that no gold is made or lost but what the
ledger records, that the book never crosses, that what is escrowed comes back.
