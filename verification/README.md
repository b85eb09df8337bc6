# rust_poker

Video poker, as a verified library: cards and decks, the ranking and pay table
of five-card hands, and the rules of a round (bet, deal, hold, draw, payout),
each with a contract proved by Verus.

- `src/cards.rs`: suits, ranks, cards, the deck, hand ranking and payouts.
- `src/shuffle.rs`: the deck shuffle, done by the `rand` crate.
- `src/game.rs`: the game state, its transitions over plain values, input
  handling and the timing of the card flips (in integer nanoseconds).
- `src/render.rs`: the screen layout and hit tests of buttons and cards.
- `src/ui.rs`: a simple button.
- `src/text.rs`: decimal rendering of numbers for file names.
- `src/laws.rs`: properties kept across operations of the game.
- `app/`: the SDL2 window, drawing and event loop around the library.
