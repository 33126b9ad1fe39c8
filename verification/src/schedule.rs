use vstd::prelude::*;

use crate::number::{parse_u32, parse_u32_spec};
use crate::text::{chars_of, eq_lower, lemma_lower_eq_lowered, lower_eq, lowered, same_chars, split_chars, split_on, trim, trim_chars, views};

verus! {

/// An extension of the image files that a scan queues: `bmp`, `gif`,
/// `jpeg`, `jpg` or `png`, in any case.
pub open spec fn image_ext(ext: Seq<char>) -> bool {
    ||| lower_eq(ext, seq!['b', 'm', 'p'])
    ||| lower_eq(ext, seq!['g', 'i', 'f'])
    ||| lower_eq(ext, seq!['j', 'p', 'e', 'g'])
    ||| lower_eq(ext, seq!['j', 'p', 'g'])
    ||| lower_eq(ext, seq!['p', 'n', 'g'])
}

/// An extension is an image's exactly when, with its ASCII letters made
/// small, it is `bmp`, `gif`, `jpeg`, `jpg` or `png`; so the case of its
/// letters never matters.
pub proof fn law_image_ext_by_lowercase(ext: Seq<char>, other: Seq<char>)
    ensures
        image_ext(ext) <==> {
            ||| lowered(ext) == seq!['b', 'm', 'p']
            ||| lowered(ext) == seq!['g', 'i', 'f']
            ||| lowered(ext) == seq!['j', 'p', 'e', 'g']
            ||| lowered(ext) == seq!['j', 'p', 'g']
            ||| lowered(ext) == seq!['p', 'n', 'g']
        },
        lowered(ext) == lowered(other) ==> (image_ext(ext) <==> image_ext(other)),
{
    lemma_lower_eq_lowered(ext, seq!['b', 'm', 'p']);
    lemma_lower_eq_lowered(ext, seq!['g', 'i', 'f']);
    lemma_lower_eq_lowered(ext, seq!['j', 'p', 'e', 'g']);
    lemma_lower_eq_lowered(ext, seq!['j', 'p', 'g']);
    lemma_lower_eq_lowered(ext, seq!['p', 'n', 'g']);
    lemma_lower_eq_lowered(other, seq!['b', 'm', 'p']);
    lemma_lower_eq_lowered(other, seq!['g', 'i', 'f']);
    lemma_lower_eq_lowered(other, seq!['j', 'p', 'e', 'g']);
    lemma_lower_eq_lowered(other, seq!['j', 'p', 'g']);
    lemma_lower_eq_lowered(other, seq!['p', 'n', 'g']);
}

/// Whether a file with extension `ext` is an image to queue.
pub fn is_image_ext(ext: &str) -> (r: bool)
    ensures
        r == image_ext(ext@),
{
    let e = chars_of(ext);
    eq_lower(&e, &['b', 'm', 'p']) || eq_lower(&e, &['g', 'i', 'f']) || eq_lower(
        &e,
        &['j', 'p', 'e', 'g'],
    ) || eq_lower(&e, &['j', 'p', 'g']) || eq_lower(&e, &['p', 'n', 'g'])
}

/// The kinds of media that a tweet can carry.
#[derive(Debug, Clone, Copy, PartialEq, Eq, Structural)]
pub enum MediaKind {
    Jpg,
    Gif,
    Png,
    Webp,
    Mp4,
}

/// The media kind of a file by its exact extension.
pub open spec fn media_kind_of(ext: Seq<char>) -> Option<MediaKind> {
    if ext == seq!['j', 'p', 'g'] || ext == seq!['j', 'p', 'e', 'g'] {
        Some(MediaKind::Jpg)
    } else if ext == seq!['g', 'i', 'f'] {
        Some(MediaKind::Gif)
    } else if ext == seq!['p', 'n', 'g'] {
        Some(MediaKind::Png)
    } else if ext == seq!['w', 'e', 'b', 'p'] {
        Some(MediaKind::Webp)
    } else if ext == seq!['m', 'p', '4'] {
        Some(MediaKind::Mp4)
    } else {
        None
    }
}

/// The media kind for the extension `ext`, or none for a format that cannot
/// be posted.
pub fn media_kind(ext: &str) -> (r: Option<MediaKind>)
    ensures
        r == media_kind_of(ext@),
{
    let e = chars_of(ext);
    if same_chars(&e, &['j', 'p', 'g']) || same_chars(&e, &['j', 'p', 'e', 'g']) {
        Some(MediaKind::Jpg)
    } else if same_chars(&e, &['g', 'i', 'f']) {
        Some(MediaKind::Gif)
    } else if same_chars(&e, &['p', 'n', 'g']) {
        Some(MediaKind::Png)
    } else if same_chars(&e, &['w', 'e', 'b', 'p']) {
        Some(MediaKind::Webp)
    } else if same_chars(&e, &['m', 'p', '4']) {
        Some(MediaKind::Mp4)
    } else {
        None
    }
}

/// What the posting loop does with a queued tweet.
#[derive(Debug, Clone, Copy, PartialEq, Eq, Structural)]
pub enum Gate {
    /// Its state is the date it was sent: go on with the next tweet.
    Sent,
    /// Its state already says `error`: report it and stop.
    Halt,
    /// Its state is neither: set it to `error`, report it and stop.
    MarkError,
}

/// The step for a tweet with state `state`, where `is_date` tells whether
/// the state reads as an RFC 2822 date.
pub open spec fn gate_of(state: Seq<char>, is_date: bool) -> Gate {
    if is_date {
        Gate::Sent
    } else if lower_eq(trim(state), seq!['e', 'r', 'r', 'o', 'r']) {
        Gate::Halt
    } else {
        Gate::MarkError
    }
}

/// The step for a tweet with state `state`, given whether that state reads
/// as an RFC 2822 date.
pub fn gate_for(state: &str, is_date: bool) -> (g: Gate)
    ensures
        g == gate_of(state@, is_date),
{
    let t = trim_chars(&chars_of(state));
    if is_date {
        Gate::Sent
    } else if eq_lower(&t, &['e', 'r', 'r', 'o', 'r']) {
        Gate::Halt
    } else {
        Gate::MarkError
    }
}

/// Whether chrono reads `s` as an RFC 2822 date and time.
pub uninterp spec fn rfc2822_date(s: Seq<char>) -> bool;

/// `chrono::DateTime::parse_from_rfc2822`: whether it reads `s` without
/// error.  The result is named, not stated: it follows the RFC 2822 grammar
/// (with its obsolete forms) and the calendar, which this contract does
/// not spell out.
#[verifier::external_body]
fn parses_as_rfc2822(s: &str) -> (r: bool)
    ensures
        r == rfc2822_date(s@),
{
    chrono::DateTime::parse_from_rfc2822(s).is_ok()
}

/// The step for a queued tweet with state `state`.
pub fn gate(state: &str) -> (g: Gate)
    ensures
        g == gate_of(state@, rfc2822_date(state@)),
{
    let is_date = parses_as_rfc2822(state);
    gate_for(state, is_date)
}

pub open spec fn strictly_increasing(s: Seq<u32>) -> bool {
    forall|i: int, j: int| 0 <= i < j < s.len() ==> s[i] < s[j]
}

/// `x` is an hour that the day entry `hours` lists (as a piece between
/// single spaces that reads as a `u32`) and that lies from `hour` to 24.
pub open spec fn listed_hour(hours: Seq<char>, hour: u32, x: u32) -> bool {
    &&& hour <= x <= 24
    &&& exists|i: int|
        0 <= i < split_on(hours, ' ').len() && parse_u32_spec(#[trigger] split_on(hours, ' ')[i])
            == Some(x)
}

/// The schedule of a day entry at hour `hour` holds exactly the numbers
/// that a piece of the entry (between single spaces) reads as and that lie
/// from `hour` (the hour now is still due) to 24.
pub proof fn law_schedule_hours(hours: Seq<char>, hour: u32, x: u32, i: int)
    ensures
        0 <= i < split_on(hours, ' ').len() && parse_u32_spec(split_on(hours, ' ')[i]) == Some(x)
            && hour <= x && x <= 24 ==> listed_hour(hours, hour, x),
        listed_hour(hours, hour, x) ==> hour <= x && x <= 24 && exists|j: int|
            0 <= j < split_on(hours, ' ').len() && parse_u32_spec(
                #[trigger] split_on(hours, ' ')[j],
            ) == Some(x),
        0 <= i < split_on(hours, ' ').len() && parse_u32_spec(split_on(hours, ' ')[i]) == Some(hour)
            && hour <= 24 ==> listed_hour(hours, hour, hour),
{
}

fn insert_sorted(v: &mut Vec<u32>, x: u32)
    requires
        strictly_increasing(old(v)@),
    ensures
        strictly_increasing(final(v)@),
        forall|y: u32| final(v)@.contains(y) <==> (old(v)@.contains(y) || y == x),
{
    let n = v.len();
    let mut pos: usize = 0;
    while pos < n && v[pos] < x
        invariant
            pos <= n,
            n == v@.len(),
            v@ == old(v)@,
            forall|j: int| 0 <= j < pos ==> v@[j] < x,
        decreases n - pos,
    {
        pos = pos + 1;
    }
    if pos < n && v[pos] == x {
        assert(v@[pos as int] == x);
        return;
    }
    let ghost before = v@;
    v.insert(pos, x);
    assert(v@ == before.insert(pos as int, x));
    assert forall|i: int, j: int| 0 <= i < j < v@.len() implies v@[i] < v@[j] by {
        if j < pos {
        } else if j == pos {
        } else if i < pos {
            assert(before[j - 1] > x || before[j - 1] >= x);
        } else if i == pos {
            assert(before[j - 1] >= before[pos as int]);
        } else {
        }
    }
    assert forall|y: u32| v@.contains(y) <==> (before.contains(y) || y == x) by {
        if v@.contains(y) {
            let k = choose|k: int| 0 <= k < v@.len() && v@[k] == y;
            if k < pos {
                assert(before[k] == y);
            } else if k > pos {
                assert(before[k - 1] == y);
            }
        }
        if before.contains(y) {
            let k = choose|k: int| 0 <= k < before.len() && before[k] == y;
            if k < pos {
                assert(v@[k] == y);
            } else {
                assert(v@[k + 1] == y);
            }
        }
        if y == x {
            assert(v@[pos as int] == x);
        }
    }
}

/// The hours of the day entry `hours` still to come at hour `hour`, in
/// increasing order without repeats.
pub fn day_schedule(hours: &str, hour: u32) -> (r: Vec<u32>)
    ensures
        strictly_increasing(r@),
        forall|x: u32| r@.contains(x) <==> listed_hour(hours@, hour, x),
{
    let pieces = split_chars(&chars_of(hours), ' ');
    let mut r: Vec<u32> = Vec::new();
    let n = pieces.len();
    for i in 0..n
        invariant
            n == pieces@.len(),
            views(pieces@) == split_on(hours@, ' '),
            strictly_increasing(r@),
            forall|x: u32|
                r@.contains(x) <==> (hour <= x <= 24 && exists|j: int|
                    0 <= j < i && parse_u32_spec(#[trigger] views(pieces@)[j]) == Some(x)),
    {
        assert(views(pieces@)[i as int] == pieces@[i as int]@);
        let ghost old_r = r@;
        match parse_u32(&pieces[i]) {
            Some(x) => {
                if hour <= x && x <= 24 {
                    insert_sorted(&mut r, x);
                }
            },
            None => {},
        }
        assert forall|y: u32|
            r@.contains(y) <==> (hour <= y <= 24 && exists|j: int|
                0 <= j < i + 1 && parse_u32_spec(#[trigger] views(pieces@)[j]) == Some(y)) by {
            if hour <= y <= 24 && parse_u32_spec(views(pieces@)[i as int]) == Some(y) {
                assert(r@.contains(y));
            }
            if r@.contains(y) && !old_r.contains(y) {
                assert(parse_u32_spec(views(pieces@)[i as int]) == Some(y));
            }
            if old_r.contains(y) {
                let j = choose|j: int| 0 <= j < i && parse_u32_spec(#[trigger] views(pieces@)[j]) == Some(y);
                assert(0 <= j < i + 1);
            }
        }
    }
    r
}

/// The time of day (hour, minute, second) to post for the first hour of
/// `schedule`: that hour on the hour, or 23:59:59 for hour 24.
pub fn next_slot(schedule: &Vec<u32>) -> (r: Option<(u32, u32, u32)>)
    ensures
        r == (if schedule@.len() == 0 {
            None
        } else if schedule@[0] > 23 {
            Some((23u32, 59u32, 59u32))
        } else {
            Some((schedule@[0], 0u32, 0u32))
        }),
{
    if schedule.len() == 0 {
        None
    } else {
        let hour = schedule[0];
        if hour > 23 {
            Some((23, 59, 59))
        } else {
            Some((hour, 0, 0))
        }
    }
}

/// After a post at minute `minute`, the minutes to the next hour and the
/// seconds to wait (one more than those minutes make).
pub fn wait_after_post(minute: u32) -> (r: (u32, u64))
    requires
        minute <= 60,
    ensures
        r.0 == 60 - minute,
        r.1 == (60 - minute) * 60 + 1,
{
    let mins = 60 - minute;
    let secs = ((mins * 60) + 1) as u64;
    (mins, secs)
}

} // verus!
