# My Little Card Game

A card game in which everything is a deck: the player's library of cards, the
area of encounters, the enemies' decks. The rules are written in Verus and
proved against their contracts; a small web server around them serves the game.

## Layout

- `src/` — the verified game core.
  - `library/` — the card library (copies moving between library, deck, hand
    and discard), token balances (`token_map`), effect rolls and costs, the
    game state, configuration loading, metrics, and one module per encounter
    discipline under `disciplines/` (combat, mining, fishing, herbalism,
    woodcutting, rest, crafting, research). Woodcutting multipliers are kept in
    hundredths; the server converts the configured ones. `combat` holds a
    pure-data combat simulation: card plays applied to a snapshot as token
    changes.
  - `action.rs` — the player's actions and how the game state answers them,
    with the actions listed as possible in each state.
  - `area_deck/`, `deck/`, `combat/` — the encounter area, plain decks and
    combat units.
  - `actions_log.rs`, `version.rs` — paging of the action log; the version
    record with the configuration hash.
  - `rng.rs` — the seeded generator, the only source of chance.
- `tests/` — tests of the core on concrete games.
- `app/` — the web server: routes, the player and designer guides, JSON forms
  of the core's types, reading the configuration files and the action log file.

Every public function of the core states what it returns or changes in its
`ensures`; laws that relate several functions are proof functions named
`law_*`.
