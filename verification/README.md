# river

Schedules tweets with images. A plain-text queue file (`river.queue.txt`)
lists, per day of the week, the hours to post at, and a queue of tweets
(text, image path, state). `river scan` adds the images of the current
directory to the queue; `river start` posts them at the scheduled hours.

## Layout

- `src/` — the library, verified with Verus:
  - `text.rs`: character-level text handling (white space as Unicode
    defines it, trimming, splitting at a character or at blank lines,
    collapsing white space, ASCII case, file names and extensions of paths), with laws on
    collapsing white space.
  - `river.rs`: the queue model (`Days`, `Tweet`, `Tweets`, `River`), reading
    a queue text (`parse_load`), writing it (`to_text`), queuing new images
    (`append_new`) and looking up a day (`get_day`).
  - `roundtrip.rs`: the laws on reading a written queue back, and on
    writing a queue split in two.
  - `schedule.rs`: the decisions of the posting loop — which files are
    images, which media kind a file is, what to do with a queued tweet given
    its state, which hours of the day are still to come.
  - `posting.rs`: the posting loop as a step function from where it stands
    and what the program reports to where it goes next and what it asks the
    program to do.
  - `number.rs`: reading and writing unsigned decimal numbers.
  - `auth.rs`: the saved Twitter authorization (reading, writing, and the
    law that a written record reads back).
  - `report.rs`: the lines, with their styles, that describe a tweet.
- `app/` — the program: command line, files, the Twitter API, waiting,
  colors and self-update.
- `tests/` — tests of the library.
