use yiffy_corner::callback::{callback_data, parse_callback, split_colons, Callback, ModVerb};
use yiffy_corner::post::PostId;

#[test]
fn buttons_read_back_as_themselves() {
    let all = [
        Callback::Moderate(ModVerb::Approve, Some(PostId(12))),
        Callback::Moderate(ModVerb::Reject, Some(PostId(0))),
        Callback::Moderate(ModVerb::AddTags, Some(PostId(7))),
        Callback::Moderate(ModVerb::Reason, Some(PostId(7))),
        Callback::Moderate(ModVerb::Changes, Some(PostId(7))),
        Callback::PoolList(Some(PostId(3))),
        Callback::PoolBack(Some(PostId(3)), Some(2)),
        Callback::PoolPick(Some(PostId(3)), Some(7)),
        Callback::Report(Some(PostId(99))),
        Callback::ReportTake(Some(PostId(5))),
        Callback::ReportDismiss(Some(PostId(5))),
        Callback::BrowseErase,
        Callback::BrowseSkip(Some(123456)),
        Callback::BrowseSend(Some(u64::MAX)),
        Callback::BrowseMore,
    ];
    for c in all {
        assert_eq!(parse_callback(&callback_data(c)), Some(c));
    }
}

#[test]
fn button_data_has_the_documented_shape() {
    assert_eq!(callback_data(Callback::Moderate(ModVerb::Approve, Some(PostId(12)))), "mod:approve:12");
    assert_eq!(callback_data(Callback::PoolPick(Some(PostId(3)), Some(7))), "pool:pick:3:7");
    assert_eq!(callback_data(Callback::BrowseErase), "browse:erase");
    assert_eq!(callback_data(Callback::BrowseMore), "brmore");
}

#[test]
fn malformed_ids_and_unknown_data() {
    assert_eq!(parse_callback("mod:approve:x"), Some(Callback::Moderate(ModVerb::Approve, None)));
    assert_eq!(parse_callback("report:#5"), Some(Callback::Report(Some(PostId(5)))));
    assert_eq!(parse_callback("pool:back:3:-1"), Some(Callback::PoolBack(Some(PostId(3)), None)));
    assert_eq!(parse_callback("mod:bless:1"), None);
    assert_eq!(parse_callback("mod:approve:1:2"), None);
    assert_eq!(parse_callback(""), None);
    assert_eq!(parse_callback("browse"), None);
}

#[test]
fn splitting_keeps_empty_pieces() {
    assert_eq!(split_colons("a::b:"), vec!["a", "", "b", ""]);
    assert_eq!(split_colons(""), vec![""]);
}
