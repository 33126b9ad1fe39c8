use vstd::prelude::*;

use crate::schedule::{
    day_schedule, gate, gate_of, listed_hour, media_kind, media_kind_of, next_slot, rfc2822_date,
    strictly_increasing, wait_after_post, Gate, MediaKind,
};

verus! {

/// `s` is the schedule of a day entry `hours` at hour `hour`: the listed
/// hours still to come, in increasing order without repeats.
pub open spec fn is_day_schedule(s: Seq<u32>, hours: Seq<char>, hour: u32) -> bool {
    strictly_increasing(s) && forall|x: u32| s.contains(x) <==> listed_hour(hours, hour, x)
}

proof fn lemma_increasing_tail(a: Seq<u32>)
    requires
        strictly_increasing(a),
        a.len() > 0,
    ensures
        strictly_increasing(a.drop_first()),
        forall|x: u32| a.drop_first().contains(x) <==> (a.contains(x) && x != a[0]),
{
    assert forall|x: u32| a.drop_first().contains(x) <==> (a.contains(x) && x != a[0]) by {
        if a.drop_first().contains(x) {
            let i = choose|i: int| 0 <= i < a.drop_first().len() && a.drop_first()[i] == x;
            assert(a[i + 1] == x);
            assert(a[0] < a[i + 1]);
        }
        if a.contains(x) && x != a[0] {
            let i = choose|i: int| 0 <= i < a.len() && a[i] == x;
            assert(i > 0);
            assert(a.drop_first()[i - 1] == x);
        }
    }
}

/// Two increasing sequences without repeats that hold the same values are
/// the same sequence.
proof fn lemma_increasing_unique(a: Seq<u32>, b: Seq<u32>)
    requires
        strictly_increasing(a),
        strictly_increasing(b),
        forall|x: u32| a.contains(x) <==> b.contains(x),
    ensures
        a == b,
    decreases a.len(),
{
    if a.len() == 0 {
        if b.len() > 0 {
            assert(b.contains(b[0]));
        }
        assert(a =~= b);
    } else {
        assert(a.contains(a[0]));
        assert(b.len() > 0);
        assert(b.contains(b[0]));
        let i = choose|i: int| 0 <= i < b.len() && b[i] == a[0];
        let j = choose|j: int| 0 <= j < a.len() && a[j] == b[0];
        if i > 0 {
            assert(b[0] < b[i]);
            if j > 0 {
                assert(a[0] < a[j]);
            }
        }
        assert(a[0] == b[0]);
        lemma_increasing_tail(a);
        lemma_increasing_tail(b);
        assert forall|x: u32| a.drop_first().contains(x) <==> b.drop_first().contains(x) by {
            assert(a.drop_first().contains(x) <==> (a.contains(x) && x != a[0]));
            assert(b.drop_first().contains(x) <==> (b.contains(x) && x != b[0]));
        }
        lemma_increasing_unique(a.drop_first(), b.drop_first());
        assert(a =~= seq![a[0]] + a.drop_first());
        assert(b =~= seq![b[0]] + b.drop_first());
    }
}

/// The schedule of the day entry `hours` at hour `hour`.
pub open spec fn schedule_of(hours: Seq<char>, hour: u32) -> Seq<u32> {
    choose|s: Seq<u32>| is_day_schedule(s, hours, hour)
}

/// Where the posting loop stands with the current tweet.
#[derive(Debug, Clone, Copy, PartialEq, Eq, Structural)]
pub enum PostState {
    /// Its state is to be judged.
    Judge,
    /// It is to be posted: the day's entry and the hour are to be read.
    /// Judging never leads here, since a state that is not a date stops the
    /// loop; a caller that posts a tweet by its own choice starts here.
    Plan,
    /// Its posting time today is known: how long until then is to be
    /// measured.
    Due { hour: u32, minute: u32, second: u32, count: usize },
    /// No hour is left today: how long until midnight is to be measured.
    Tomorrow,
    /// Its time has come: the extension of its image is to be read.
    Media,
    /// It is being sent.
    Sending,
    /// Nothing more is to be done with it.
    Finished,
}

/// What the program tells the loop.
pub enum PostEvent {
    /// The tweet's state.
    State(String),
    /// The entry of today in the schedule, and the hour now.
    Clock { day_entry: String, hour: u32 },
    /// The seconds until the measured time, or none where it has passed.
    Until(Option<u64>),
    /// The extension of the tweet's image.
    Extension(String),
    /// Whether the tweet went out, and the minute it was sent at.
    Sent { ok: bool, minute: u32 },
}

/// What the loop asks the program to do.
#[derive(Debug, Clone, Copy, PartialEq, Eq, Structural)]
pub enum PostAction {
    /// Go on with the next tweet.
    NextTweet,
    /// Report an error in the queue file and stop.
    Stop,
    /// Set the tweet's state to `error`, report it and stop.
    MarkErrorAndStop,
    /// Read today's entry and the hour (event `Clock`).
    ReadClock,
    /// Measure the time until this time of today (event `Until`).
    Measure { hour: u32, minute: u32, second: u32 },
    /// Measure the time until midnight (event `Until`).
    MeasureTomorrow,
    /// Report the posting hour and the count of hours left today, wait
    /// `secs` seconds (`mins` minutes), then go on with the next tweet.
    WaitForSlot { hour: u32, count: usize, secs: u64, mins: u64 },
    /// Report that no tweet is due today, wait `secs` seconds (`hours`
    /// hours), then go on with the next tweet.
    WaitForTomorrow { secs: u64, hours: u64 },
    /// Read the extension of the tweet's image (event `Extension`).
    ReadExtension,
    /// Upload the image as this kind of media and send the tweet (event
    /// `Sent`).
    Upload(MediaKind),
    /// The image is of no kind that can be posted: stop with an error.
    Unrecognized,
    /// Set the tweet's state to the time it was sent, save the queue, wait
    /// `secs` seconds (`minutes` minutes), then go on with the next tweet.
    Record { minutes: u32, secs: u64 },
    /// Sending failed: stop with an error.
    Fail,
    /// The clock gave a time that cannot be: stop with an error.
    Abort,
    /// The event does not fit where the loop stands.
    Ignored,
}

/// The time of day to post at for the hour `h` of a schedule: on the hour,
/// or 23:59:59 for hour 24.
pub open spec fn slot_of(h: u32) -> (u32, u32, u32) {
    if h > 23 {
        (23, 59, 59)
    } else {
        (h, 0, 0)
    }
}

/// The next state of the loop and what it asks, for an event where the loop
/// stands at `state`.
pub open spec fn next_step(state: PostState, event: PostEvent) -> (PostState, PostAction) {
    match (state, event) {
        (PostState::Judge, PostEvent::State(s)) => match gate_of(s@, rfc2822_date(s@)) {
            Gate::Sent => (PostState::Finished, PostAction::NextTweet),
            Gate::Halt => (PostState::Finished, PostAction::Stop),
            Gate::MarkError => (PostState::Finished, PostAction::MarkErrorAndStop),
        },
        (PostState::Plan, PostEvent::Clock { day_entry, hour }) => {
            let s = schedule_of(day_entry@, hour);
            if s.len() == 0 {
                (PostState::Tomorrow, PostAction::MeasureTomorrow)
            } else {
                let t = slot_of(s[0]);
                (
                    PostState::Due { hour: t.0, minute: t.1, second: t.2, count: s.len() as usize },
                    PostAction::Measure { hour: t.0, minute: t.1, second: t.2 },
                )
            }
        },
        (PostState::Due { hour, minute, second, count }, PostEvent::Until(d)) => match d {
            Some(d) => if d < u64::MAX {
                (
                    PostState::Finished,
                    PostAction::WaitForSlot {
                        hour,
                        count,
                        secs: (d + 1) as u64,
                        mins: ((d + 1) / 60) as u64,
                    },
                )
            } else {
                (PostState::Finished, PostAction::Abort)
            },
            None => (PostState::Media, PostAction::ReadExtension),
        },
        (PostState::Tomorrow, PostEvent::Until(d)) => match d {
            Some(d) => if d < u64::MAX {
                (
                    PostState::Finished,
                    PostAction::WaitForTomorrow {
                        secs: (d + 1) as u64,
                        hours: ((d + 1) / 3600) as u64,
                    },
                )
            } else {
                (PostState::Finished, PostAction::Abort)
            },
            None => (PostState::Finished, PostAction::Abort),
        },
        (PostState::Media, PostEvent::Extension(e)) => match media_kind_of(e@) {
            Some(k) => (PostState::Sending, PostAction::Upload(k)),
            None => (PostState::Finished, PostAction::Unrecognized),
        },
        (PostState::Sending, PostEvent::Sent { ok, minute }) => if !ok {
            (PostState::Finished, PostAction::Fail)
        } else if minute <= 60 {
            (
                PostState::Finished,
                PostAction::Record {
                    minutes: (60 - minute) as u32,
                    secs: ((60 - minute) * 60 + 1) as u64,
                },
            )
        } else {
            (PostState::Finished, PostAction::Abort)
        },
        _ => (state, PostAction::Ignored),
    }
}

fn wait_secs(d: Option<u64>, per: u64) -> (r: Option<(u64, u64)>)
    requires
        per > 0,
    ensures
        r == (match d {
            Some(d) => if d < u64::MAX {
                Some(((d + 1) as u64, ((d + 1) / (per as int)) as u64))
            } else {
                None
            },
            None => None,
        }),
{
    match d {
        Some(d) => if d < u64::MAX {
            let secs = d + 1;
            Some((secs, secs / per))
        } else {
            None
        },
        None => None,
    }
}

/// One step of the posting loop: where it goes and what it asks, for an
/// event where it stands at `state`.
pub fn step(state: PostState, event: PostEvent) -> (r: (PostState, PostAction))
    ensures
        r == next_step(state, event),
{
    match (state, event) {
        (PostState::Judge, PostEvent::State(s)) => match gate(s.as_str()) {
            Gate::Sent => (PostState::Finished, PostAction::NextTweet),
            Gate::Halt => (PostState::Finished, PostAction::Stop),
            Gate::MarkError => (PostState::Finished, PostAction::MarkErrorAndStop),
        },
        (PostState::Plan, PostEvent::Clock { day_entry, hour }) => {
            let s = day_schedule(day_entry.as_str(), hour);
            proof {
                assert(is_day_schedule(s@, day_entry@, hour));
                let c = schedule_of(day_entry@, hour);
                assert(is_day_schedule(c, day_entry@, hour));
                lemma_increasing_unique(s@, c);
            }
            match next_slot(&s) {
                None => (PostState::Tomorrow, PostAction::MeasureTomorrow),
                Some((hh, mm, ss)) => (
                    PostState::Due { hour: hh, minute: mm, second: ss, count: s.len() },
                    PostAction::Measure { hour: hh, minute: mm, second: ss },
                ),
            }
        },
        (PostState::Due { hour, minute, second, count }, PostEvent::Until(d)) => match d {
            Some(_) => match wait_secs(d, 60) {
                Some((secs, mins)) => (
                    PostState::Finished,
                    PostAction::WaitForSlot { hour, count, secs, mins },
                ),
                None => (PostState::Finished, PostAction::Abort),
            },
            None => (PostState::Media, PostAction::ReadExtension),
        },
        (PostState::Tomorrow, PostEvent::Until(d)) => match wait_secs(d, 3600) {
            Some((secs, hours)) => (PostState::Finished, PostAction::WaitForTomorrow { secs, hours }),
            None => (PostState::Finished, PostAction::Abort),
        },
        (PostState::Media, PostEvent::Extension(e)) => match media_kind(e.as_str()) {
            Some(k) => (PostState::Sending, PostAction::Upload(k)),
            None => (PostState::Finished, PostAction::Unrecognized),
        },
        (PostState::Sending, PostEvent::Sent { ok, minute }) => if !ok {
            (PostState::Finished, PostAction::Fail)
        } else if minute <= 60 {
            let (mins, secs) = wait_after_post(minute);
            (PostState::Finished, PostAction::Record { minutes: mins, secs })
        } else {
            (PostState::Finished, PostAction::Abort)
        },
        (state, _) => (state, PostAction::Ignored),
    }
}

} // verus!
