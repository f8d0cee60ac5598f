use yiffy_corner::bot::{dialogue_step, DialogueStep, InFlight, ModerationDialogue};
use yiffy_corner::post::PostId;

fn s(x: &str) -> String {
    x.to_string()
}

fn waiting(moderation: Option<ModerationDialogue>, report: bool, more: bool, submission: bool) -> InFlight {
    InFlight { moderation, report, more, submission }
}

#[test]
fn moderation_follow_ups_come_first() {
    let all = |d| waiting(Some(d), true, true, true);
    match dialogue_step(all(ModerationDialogue::RejectReason(PostId(4))), "  off topic  ") {
        DialogueStep::RejectWith(p, r) => assert_eq!((p, r), (PostId(4), s("off topic"))),
        other => panic!("unexpected {:?}", other),
    }
    match dialogue_step(all(ModerationDialogue::RequestChanges(PostId(4))), "crop it") {
        DialogueStep::ChangesWith(p, r) => assert_eq!((p, r), (PostId(4), s("crop it"))),
        other => panic!("unexpected {:?}", other),
    }
    match dialogue_step(all(ModerationDialogue::ExtraTags(PostId(4))), "wolf  solo") {
        DialogueStep::AcceptWithTags(p, ts) => assert_eq!((p, ts), (PostId(4), vec![s("wolf"), s("solo")])),
        other => panic!("unexpected {:?}", other),
    }
    match dialogue_step(all(ModerationDialogue::RejectReason(PostId(4))), "   ") {
        DialogueStep::ModerationAborted(m) => {
            assert_eq!(m, "Empty reason — post left untouched. Press the button again to retry.")
        },
        other => panic!("unexpected {:?}", other),
    }
    match dialogue_step(all(ModerationDialogue::ExtraTags(PostId(4))), "") {
        DialogueStep::ModerationAborted(m) => {
            assert_eq!(m, "No tags given — post left untouched. Press the button again to retry.")
        },
        other => panic!("unexpected {:?}", other),
    }
}

#[test]
fn a_report_reason_is_trimmed_and_capped() {
    match dialogue_step(waiting(None, true, true, true), "  spam  ") {
        DialogueStep::FileReport(r) => assert_eq!(r, "spam"),
        other => panic!("unexpected {:?}", other),
    }
    let long = "x".repeat(600);
    match dialogue_step(waiting(None, true, false, false), &long) {
        DialogueStep::FileReport(r) => assert_eq!(r.chars().count(), 500),
        other => panic!("unexpected {:?}", other),
    }
    match dialogue_step(waiting(None, true, false, false), " ") {
        DialogueStep::ReasonNeeded(m) => assert_eq!(m, "I need a reason — a few words is fine."),
        other => panic!("unexpected {:?}", other),
    }
}

#[test]
fn wishes_then_submissions() {
    match dialogue_step(waiting(None, false, true, true), " more foxes ") {
        DialogueStep::RelayWish(w) => assert_eq!(w, "more foxes"),
        other => panic!("unexpected {:?}", other),
    }
    assert!(matches!(dialogue_step(waiting(None, false, true, true), "  "), DialogueStep::WishDropped));
    match dialogue_step(waiting(None, false, false, true), "wolf male solo") {
        DialogueStep::SubmitWithTags(ts) => assert_eq!(ts, vec![s("wolf"), s("male"), s("solo")]),
        other => panic!("unexpected {:?}", other),
    }
    match dialogue_step(waiting(None, false, false, true), "") {
        DialogueStep::TagsNeeded(m) => assert_eq!(m, "I need at least one tag — try `wolf male solo`."),
        other => panic!("unexpected {:?}", other),
    }
    assert!(matches!(dialogue_step(waiting(None, false, false, false), "hello"), DialogueStep::Silent));
}
