# rmtg

The rules of a shared Magic: The Gathering tabletop, verified with Verus.

`src/` is the library. Verus proves its functions against their
`requires`/`ensures` contracts; the few calls into outside crates (`uuid`,
`json`, `rand`) sit behind small trusted wrappers whose contracts say what
those crates do, and the random draw has none. The `law_*` proof functions
state what holds
across several calls (a reorder, draw or merge message replayed by another
player gives the same table; a card turned twice comes back; four quarter
turns come back; and so on).

- `card`, `cost`, `types`: cards, mana costs, colors and type lines, and how
  they are read from text.
- `pile`, `packet`: piles of cards and the edits players send each other.
- `hand`, `seats`, `table`, `actions`: the hand's slots, turn order and seats,
  corners of the table, and which key does what to a pile.
- `search`, `text`: the card search language and the text helpers under it.
- `rules`, `paste`, `scryfall`, `object`, `deck`: the type catalog read from
  the comprehensive rules, pasted deck lists, Scryfall data, cards and search
  pages read from the card database's JSON, and decks read from the deck
  site's JSON (through `json`).
- `sync`, `markers`: identifiers and bookkeeping of the network sync (what a
  take, request, acknowledgment or failed edit leads to), and the plain
  markers of the scene.
- `rng`: the shuffles, through `rand` and `bevy_prng`.

`tests/` runs the library on concrete values. `app/` is a small command line
front end: it reads files, checks what the library requires, and
prints results; the float geometry of the scene lives there too.
