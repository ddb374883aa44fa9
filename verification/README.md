# indus

The user store of a school, verified with Verus.

- `src/text.rs`: characters, whitespace, trimming, splitting, `i16` text.
- `src/crypt.rs`: passwords stored as their SHA-256 hex digest (rust-crypto).
- `src/data.rs`: user counters, genders, subjects, classes and the text
  forms in which a student's and a teacher's classes are stored, with the
  proof that a student's classes read back as written.
- `src/db.rs`: login decisions, reading a profile from stored rows, and the
  rows stored for a new user.
- `app/`: the PostgreSQL store, the counters file and the program.
