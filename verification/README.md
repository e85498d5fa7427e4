# smetrics_rs

Tracks the engagement of social media posts (Bluesky, Tumblr, Instagram) over
time, with the merging logic verified by Verus.

- `src/` is the verified library: instants and their differences (`time`),
  words and hashtags of text (`text`), a string-keyed map (`strmap`), the store
  of tracked posts and the merge of a feed into it (`engagement`), and the post
  types of the three platforms.
- `app/` is the command line program: argument parsing, HTTP requests, reading
  and writing the JSON data store and the Instagram cache.
- `tests/` runs the library on concrete values.
