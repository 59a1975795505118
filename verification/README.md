# memchr_stuff

Forward (`memchr`) and backward (`memrchr`) search for a byte in a byte slice, reading two
64-bit words per step and finding the matching byte inside a word with the "has a zero byte"
bit trick, verified with Verus.

- `src/search.rs`: what a correct forward or backward search answers.
- `src/word.rs`: words as eight little-endian bytes, and the bit-level proofs that the zero
  byte tests mark the right bytes.
- `src/num.rs`: words whose bytes (or byte pairs) all repeat one value.
- `src/memchr_new.rs`: the word tests and the two searches.
- `src/finder.rs`: `Finder`, which keeps the repeated word of its byte between searches.
- `src/laws.rs`: properties that relate the searches and the word tests.
- `app/main.rs`: a small program that runs one search.
