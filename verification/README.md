# card_movement_simulator

A verified library for two-player card games with public and secret state. Cards live
in zones (deck, hand, field, graveyard, dust, limbo, casting, card selection, and as
the attachment of another card); some zones are public, others are known only to the
player who holds them. Cards in a secret are named publicly by opaque pointers. The
library moves, attaches, copies, resets, modifies and reveals cards so that each player
learns exactly what the rules let them learn, and checks that the public state and the
players' secrets agree.

The library is written in Verus: its functions carry contracts, and Verus proves the
code meets them.

## Layout

- `src/` is the library.
  - Data: `card`, `zone`, `instance_id`, `card_instance`, `card_location`,
    `player_cards`, `player_secret`, `game_state`, `card_event`, `error`, `base`
    (the traits a game implements).
  - The public side of each operation is a step machine (`card_game::Step`): it changes
    the public state, lists the changes the players' secrets must make and the logs to
    send (`Effect`), and either finishes or asks one player's secret a question
    (`SecretQuery`) and resumes with the answer (`SecretAnswer`): `move_card`,
    `card_move`, `attach_card`, `copy_card`, `reset_card`, `modify_card`,
    `reveal_parent`, `reveal_from`, `card_queries`, `card_batches`, `game`.
  - The secret side: `secret_protocol` (answers and changes), `secret_cards`,
    `secret_pointers`, and the operations of `player_secret`.
  - `consistency`: `GameState::ok`, whether the public state and the secrets agree.
  - Laws: `laws`, `pile_move`, `secret_move`, `secret_entry`, `modify_consistency` and
    `creation_consistency` state and prove properties that span operations, among them
    that handing out pointers, moving a public card between public piles, moving a card
    within a secret, moving a public card into a secret, shuffling a deck, changing a
    public card in place and creating a public card keep the game consistent;
    `game_public` proves that inserting a card where the field order puts it keeps a
    sorted field sorted.
  - `random`: shuffling and choosing with `rand`.
- `tests/` runs the library on concrete games.
- `app/` drives the step machines from an `arcadeum` store context, implements the store's
  `State` for a game's public state (`Store`), and holds the copies of the library's types
  that carry `serde` and `thiserror` derives.
