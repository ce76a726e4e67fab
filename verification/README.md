# netforge

Building blocks for bespoke networking protocols, verified with Verus.

- `src/reliability/seq.rs`: wrap-around sequence ids, acknowledgement blocks (`AckBlock`) and
  the sequences of freshly acknowledged ids (`AckSequence`).
- `src/reliability/bitmask.rs`: the `Bitmask` trait and its `u8`/`u16`/`u32`/`u64` impls.
- `src/reliability/detect.rs`: `DeliveryDetector`, strict and lossy delivery detection.
- `src/reliability/resend.rs`, `strategy.rs`: `ResendCoordinator` and resend strategies.
- `src/reliability/slide/`: fixed-size sliding windows (`Slide`, `TrackingSlide`) and their
  iterators.
- `src/connection.rs`: connection ids, header sections, connections and id allocation.
- `app/`: name resolution for client connections, the round-trip-time resend strategy
  (clock and floating point), `std::error::Error` versions of the errors, and an `Iterator`
  adapter for `AckSequence`.

Every function in `src/` is verified; there are no trusted items.
