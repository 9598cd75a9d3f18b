# tennoscope

The decisions of a Warframe companion, proved with Verus.

- `src/` is the library. It takes plain values and gives plain values back, and its functions are
  proved against their contracts. The one call whose contract is trusted is `std::str::from_utf8`.
  - `path`, `windows_path`, `bytes`, `text`, `keyed`, `generation`: what the rest is written in terms of.
  - `game_log`, `log_places`, `monitor`: finding the game's log, reading on in it, and following the game.
  - `relic_pool`, `poller`, `reward_session`, `reward_choices`, `reward_publish`: the rewards of a
    fissure, from the relics that are loaded to the cards on screen.
  - `prices`, `price_table`: which prices are asked for, kept and reported.
  - `market`, `presence`: the linked warframe.market account.
  - `refresh`, `setup`, `report`: reading the inventory again, what is kept on the device, and what a
    problem report holds.
- `tests/` runs the library on concrete values.
- `app/` is the companion around it: files, threads, clocks and the services it is connected to.

Functions named `law_...` state what holds of several functions together.
