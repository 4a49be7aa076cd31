# net_location

A verified decoder for TETRA Location Information Protocol (LIP) position reports.

- `src/bits.rs`: bit strings, and how bytes and fields carry them
- `src/reader.rs`: `BitReader`, which reads fields from the front of a bit string
- `src/fields.rs`: two's complement angles and coded velocities
- `src/position.rs`: SDS user data, position reports, and `decode_tetra_lip_position`
- `src/laws.rs`: what holds of the library as a whole
- `app/`: positions in floating-point degrees and km/h

Angles in `src/` are fixed-point degrees with 24 fractional bits, which hold every value of an
angle field exactly.
