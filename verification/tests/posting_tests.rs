use river::posting::{step, PostAction, PostEvent, PostState};
use river::schedule::MediaKind;

fn state(s: &str) -> PostEvent {
    PostEvent::State(s.to_string())
}

#[test]
fn judge_sends_on_by_state() {
    assert_eq!(step(PostState::Judge, state("Wed, 18 Feb 2015 23:16:09 GMT")), (PostState::Finished, PostAction::NextTweet));
    assert_eq!(step(PostState::Judge, state("error")), (PostState::Finished, PostAction::Stop));
    assert_eq!(step(PostState::Judge, state("sent")), (PostState::Finished, PostAction::MarkErrorAndStop));
    assert_eq!(step(PostState::Judge, state("pending")), (PostState::Finished, PostAction::MarkErrorAndStop));
    assert_eq!(step(PostState::Judge, state(" Pending ")), (PostState::Finished, PostAction::MarkErrorAndStop));
    assert_eq!(step(PostState::Judge, state("")), (PostState::Finished, PostAction::MarkErrorAndStop));
}

#[test]
fn plan_picks_first_coming_hour() {
    let ev = PostEvent::Clock { day_entry: "10 13 16".to_string(), hour: 9 };
    assert_eq!(
        step(PostState::Plan, ev),
        (
            PostState::Due { hour: 10, minute: 0, second: 0, count: 3 },
            PostAction::Measure { hour: 10, minute: 0, second: 0 }
        )
    );
    let ev = PostEvent::Clock { day_entry: "10 24".to_string(), hour: 11 };
    assert_eq!(
        step(PostState::Plan, ev),
        (
            PostState::Due { hour: 23, minute: 59, second: 59, count: 1 },
            PostAction::Measure { hour: 23, minute: 59, second: 59 }
        )
    );
    let ev = PostEvent::Clock { day_entry: "10 13".to_string(), hour: 14 };
    assert_eq!(step(PostState::Plan, ev), (PostState::Tomorrow, PostAction::MeasureTomorrow));
}

#[test]
fn due_waits_or_posts() {
    let due = PostState::Due { hour: 13, minute: 0, second: 0, count: 2 };
    assert_eq!(
        step(due, PostEvent::Until(Some(59))),
        (PostState::Finished, PostAction::WaitForSlot { hour: 13, count: 2, secs: 60, mins: 1 })
    );
    assert_eq!(
        step(due, PostEvent::Until(Some(0))),
        (PostState::Finished, PostAction::WaitForSlot { hour: 13, count: 2, secs: 1, mins: 0 })
    );
    assert_eq!(step(due, PostEvent::Until(None)), (PostState::Media, PostAction::ReadExtension));
    assert_eq!(step(due, PostEvent::Until(Some(u64::MAX))), (PostState::Finished, PostAction::Abort));
}

#[test]
fn tomorrow_waits_until_midnight() {
    assert_eq!(
        step(PostState::Tomorrow, PostEvent::Until(Some(3599))),
        (PostState::Finished, PostAction::WaitForTomorrow { secs: 3600, hours: 1 })
    );
    assert_eq!(step(PostState::Tomorrow, PostEvent::Until(None)), (PostState::Finished, PostAction::Abort));
}

#[test]
fn media_by_extension() {
    assert_eq!(
        step(PostState::Media, PostEvent::Extension("png".to_string())),
        (PostState::Sending, PostAction::Upload(MediaKind::Png))
    );
    assert_eq!(
        step(PostState::Media, PostEvent::Extension("jpeg".to_string())),
        (PostState::Sending, PostAction::Upload(MediaKind::Jpg))
    );
    assert_eq!(
        step(PostState::Media, PostEvent::Extension("bmp".to_string())),
        (PostState::Finished, PostAction::Unrecognized)
    );
}

#[test]
fn sending_records_or_fails() {
    assert_eq!(
        step(PostState::Sending, PostEvent::Sent { ok: true, minute: 0 }),
        (PostState::Finished, PostAction::Record { minutes: 60, secs: 3601 })
    );
    assert_eq!(
        step(PostState::Sending, PostEvent::Sent { ok: true, minute: 59 }),
        (PostState::Finished, PostAction::Record { minutes: 1, secs: 61 })
    );
    assert_eq!(
        step(PostState::Sending, PostEvent::Sent { ok: false, minute: 10 }),
        (PostState::Finished, PostAction::Fail)
    );
    assert_eq!(
        step(PostState::Sending, PostEvent::Sent { ok: true, minute: 61 }),
        (PostState::Finished, PostAction::Abort)
    );
}

#[test]
fn mismatched_event_is_ignored() {
    assert_eq!(step(PostState::Judge, PostEvent::Until(None)), (PostState::Judge, PostAction::Ignored));
    assert_eq!(step(PostState::Finished, state("pending")), (PostState::Finished, PostAction::Ignored));
    assert_eq!(
        step(PostState::Media, PostEvent::Sent { ok: true, minute: 0 }),
        (PostState::Media, PostAction::Ignored)
    );
}
