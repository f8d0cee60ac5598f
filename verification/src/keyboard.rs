//! The inline keyboards the bot draws under its messages: the review
//! buttons, the pool chooser, the report buttons and the browse buttons.

use vstd::prelude::*;
use crate::callback::{callback_pieces, callback_spec, complete, lemma_callback_roundtrip, split_on, Callback, ModVerb};
use crate::e621::{pool_page_url, E621Pool, E621PoolCategory};
use crate::links::{opt_chars, preferred_artist_source, preferred_source_spec};
use crate::post::PostId;
use crate::scheduler::spaced;
use crate::text::{chars_of, decimal, join, push_char, push_decimal, push_str, views};

verus! {

/// What pressing a button does.
#[derive(Debug)]
pub enum Press {
    /// Sends this callback back to the bot.
    Callback(Callback),
    /// Opens this URL.
    Url(String),
}

#[derive(Debug)]
pub struct Button {
    pub label: String,
    pub press: Press,
}

pub enum PressView {
    Callback(Callback),
    Url(Seq<char>),
}

pub struct ButtonView {
    pub label: Seq<char>,
    pub press: PressView,
}

impl View for Button {
    type V = ButtonView;

    open spec fn view(&self) -> ButtonView {
        ButtonView {
            label: self.label@,
            press: match self.press {
                Press::Callback(c) => PressView::Callback(c),
                Press::Url(u) => PressView::Url(u@),
            },
        }
    }
}

pub open spec fn row_view(r: Seq<Button>) -> Seq<ButtonView> {
    r.map_values(|b: Button| b@)
}

/// A keyboard as rows of button values.
pub open spec fn rows_view(rs: Seq<Vec<Button>>) -> Seq<Seq<ButtonView>> {
    rs.map_values(|r: Vec<Button>| row_view(r@))
}

pub open spec fn cb(label: Seq<char>, c: Callback) -> ButtonView {
    ButtonView { label, press: PressView::Callback(c) }
}

pub open spec fn link(label: Seq<char>, url: Seq<char>) -> ButtonView {
    ButtonView { label, press: PressView::Url(url) }
}

/// Every callback button of the keyboard carries a complete callback, one
/// whose data can be written.
pub open spec fn all_complete(rs: Seq<Seq<ButtonView>>) -> bool {
    forall|i: int, j: int|
        0 <= i < rs.len() && 0 <= j < rs[i].len() && (#[trigger] rs[i][j]).press is Callback
            ==> complete(rs[i][j].press->Callback_0)
}

/// Every callback button a keyboard draws is read back by the callback
/// parser as the very action it names.
pub proof fn lemma_buttons_route_back(rs: Seq<Seq<ButtonView>>)
    requires
        all_complete(rs),
    ensures
        forall|i: int, j: int|
            0 <= i < rs.len() && 0 <= j < rs[i].len() && (#[trigger] rs[i][j]).press is Callback
                ==> callback_spec(split_on(join(callback_pieces(rs[i][j].press->Callback_0), seq![':']), ':'))
                    == Some(rs[i][j].press->Callback_0),
{
    assert forall|i: int, j: int|
        0 <= i < rs.len() && 0 <= j < rs[i].len() && (#[trigger] rs[i][j]).press is Callback implies
            callback_spec(split_on(join(callback_pieces(rs[i][j].press->Callback_0), seq![':']), ':'))
                == Some(rs[i][j].press->Callback_0) by {
        lemma_callback_roundtrip(rs[i][j].press->Callback_0);
    }
}

fn button(label: &str, c: Callback) -> (b: Button)
    ensures
        b@ == cb(label@, c),
{
    Button { label: label.to_owned(), press: Press::Callback(c) }
}

// -------------------------------------------------------------- review ----

pub open spec fn pools_label(n: nat) -> Seq<char> {
    if n == 1 {
        "📚 Part of a pool — submit it all?"@
    } else {
        "📚 In "@ + decimal(n) + " pools — submit one?"@
    }
}

/// The moderation buttons under a review message; a post that sits in
/// pools gets a row for submitting a whole pool.
pub open spec fn review_rows(id: PostId, pools: nat) -> Seq<Seq<ButtonView>> {
    let base = seq![
        seq![
            cb("✅ Approve"@, Callback::Moderate(ModVerb::Approve, Some(id))),
            cb("❌ Reject"@, Callback::Moderate(ModVerb::Reject, Some(id))),
        ],
        seq![
            cb("🏷 Accept with more tags"@, Callback::Moderate(ModVerb::AddTags, Some(id))),
            cb("📝 Reject with reason"@, Callback::Moderate(ModVerb::Reason, Some(id))),
        ],
        seq![cb("✏️ Request changes"@, Callback::Moderate(ModVerb::Changes, Some(id)))],
    ];
    if pools == 0 {
        base
    } else {
        base.push(seq![cb(pools_label(pools), Callback::PoolList(Some(id)))])
    }
}

pub fn review_keyboard(post_id: PostId, pool_count: usize) -> (rows: Vec<Vec<Button>>)
    ensures
        rows_view(rows@) == review_rows(post_id, pool_count as nat),
        all_complete(rows_view(rows@)),
{
    let mut rows: Vec<Vec<Button>> = Vec::new();
    let mut first: Vec<Button> = Vec::new();
    first.push(button("✅ Approve", Callback::Moderate(ModVerb::Approve, Some(post_id))));
    first.push(button("❌ Reject", Callback::Moderate(ModVerb::Reject, Some(post_id))));
    let mut second: Vec<Button> = Vec::new();
    second.push(button("🏷 Accept with more tags", Callback::Moderate(ModVerb::AddTags, Some(post_id))));
    second.push(button("📝 Reject with reason", Callback::Moderate(ModVerb::Reason, Some(post_id))));
    let mut third: Vec<Button> = Vec::new();
    third.push(button("✏️ Request changes", Callback::Moderate(ModVerb::Changes, Some(post_id))));
    assert(row_view(first@) =~= review_rows(post_id, pool_count as nat)[0]);
    assert(row_view(second@) =~= review_rows(post_id, pool_count as nat)[1]);
    assert(row_view(third@) =~= review_rows(post_id, pool_count as nat)[2]);
    rows.push(first);
    rows.push(second);
    rows.push(third);
    if pool_count > 0 {
        let mut label = String::new();
        if pool_count == 1 {
            push_str(&mut label, "📚 Part of a pool — submit it all?");
        } else {
            push_str(&mut label, "📚 In ");
            push_decimal(&mut label, pool_count as u64);
            push_str(&mut label, " pools — submit one?");
        }
        let mut fourth: Vec<Button> = Vec::new();
        fourth.push(Button { label, press: Press::Callback(Callback::PoolList(Some(post_id))) });
        assert(row_view(fourth@) =~= review_rows(post_id, pool_count as nat)[3]);
        rows.push(fourth);
    }
    assert(rows_view(rows@) =~= review_rows(post_id, pool_count as nat));
    rows
}

// ---------------------------------------------------------------- pools ----

/// How many pools the chooser lists at most.
pub const MAX_POOLS: usize = 8;

pub open spec fn category_icon(c: E621PoolCategory) -> Seq<char> {
    match c {
        E621PoolCategory::Series => "📖"@,
        E621PoolCategory::Collection => "🗂"@,
    }
}

/// A pool name cut to 30 characters (29 and an ellipsis).
pub open spec fn shortened(n: Seq<char>) -> Seq<char> {
    if n.len() > 30 {
        n.take(29) + "…"@
    } else {
        n
    }
}

pub open spec fn pool_button_label(p: E621Pool) -> Seq<char> {
    category_icon(p.category) + " "@ + shortened(spaced(p.name@)) + " · "@ + decimal(p.post_ids@.len())
        + " posts"@ + (if p.is_active { ""@ } else { " · inactive"@ })
}

pub open spec fn pool_row(id: PostId, p: E621Pool) -> Seq<ButtonView> {
    seq![cb(pool_button_label(p), Callback::PoolPick(Some(id), Some(p.id))), link("↗"@, pool_page_url(p.id))]
}

/// The pool chooser: one row per pool (at most eight), each with its pick
/// button and a link to its e621 page, then a row to go back.
pub open spec fn pool_rows(id: PostId, pools: Seq<E621Pool>) -> Seq<Seq<ButtonView>> {
    let n = if pools.len() < MAX_POOLS { pools.len() } else { MAX_POOLS as nat };
    Seq::new(n, |i: int| pool_row(id, pools[i])).push(seq![cb("◀ Back"@, Callback::PoolBack(Some(id), Some(pools.len() as u64)))])
}

fn shortened_name(p: &E621Pool) -> (s: String)
    ensures
        s@ == shortened(spaced(p.name@)),
{
    let name = chars_of(p.display_name().as_str());
    let mut s = String::new();
    let n: usize = if name.len() > 30 { 29 } else { name.len() };
    let mut k: usize = 0;
    while k < n
        invariant
            k <= n <= name.len(),
            s@ == name@.take(k as int),
        decreases n - k,
    {
        push_char(&mut s, name[k]);
        assert(name@.take(k + 1) =~= name@.take(k as int).push(name@[k as int]));
        k = k + 1;
    }
    if name.len() > 30 {
        push_str(&mut s, "…");
    } else {
        assert(name@.take(name.len() as int) =~= name@);
    }
    s
}

fn pool_label(p: &E621Pool) -> (s: String)
    ensures
        s@ == pool_button_label(*p),
{
    let mut s = String::new();
    match p.category {
        E621PoolCategory::Series => push_str(&mut s, "📖"),
        E621PoolCategory::Collection => push_str(&mut s, "🗂"),
    }
    push_str(&mut s, " ");
    let name = shortened_name(p);
    push_str(&mut s, name.as_str());
    push_str(&mut s, " · ");
    push_decimal(&mut s, p.post_ids.len() as u64);
    push_str(&mut s, " posts");
    let ghost before = s@;
    if !p.is_active {
        push_str(&mut s, " · inactive");
    } else {
        assert(s@ =~= before + ""@) by {
            reveal_strlit("");
        }
    }
    assert(s@ =~= pool_button_label(*p));
    s
}

pub fn pool_choice_keyboard(post_id: PostId, pools: &Vec<E621Pool>) -> (rows: Vec<Vec<Button>>)
    ensures
        rows_view(rows@) == pool_rows(post_id, pools@),
        all_complete(rows_view(rows@)),
{
    let n = if pools.len() < MAX_POOLS { pools.len() } else { MAX_POOLS };
    let ghost want = pool_rows(post_id, pools@);
    let mut rows: Vec<Vec<Button>> = Vec::new();
    let mut k: usize = 0;
    while k < n
        invariant
            k <= n <= pools.len(),
            n == (if pools.len() < MAX_POOLS { pools.len() } else { MAX_POOLS }),
            want == pool_rows(post_id, pools@),
            rows@.len() == k,
            forall|i: int| 0 <= i < k ==> row_view(#[trigger] rows@[i]@) == want[i],
        decreases n - k,
    {
        let p = &pools[k];
        let label = pool_label(p);
        let mut row: Vec<Button> = Vec::new();
        row.push(Button { label, press: Press::Callback(Callback::PoolPick(Some(post_id), Some(p.id))) });
        row.push(Button { label: "↗".to_owned(), press: Press::Url(p.page_url()) });
        assert(row_view(row@) =~= want[k as int]);
        rows.push(row);
        k = k + 1;
    }
    let mut back: Vec<Button> = Vec::new();
    back.push(button("◀ Back", Callback::PoolBack(Some(post_id), Some(pools.len() as u64))));
    assert(row_view(back@) =~= want[n as int]);
    rows.push(back);
    assert(rows_view(rows@) =~= want);
    rows
}

// -------------------------------------------------------------- reports ----

/// The moderator's buttons under a report notice.
pub open spec fn report_rows(id: PostId) -> Seq<Seq<ButtonView>> {
    seq![seq![cb("🗑 Take down"@, Callback::ReportTake(Some(id))), cb("✅ Dismiss"@, Callback::ReportDismiss(Some(id)))]]
}

pub fn report_keyboard(post_id: PostId) -> (rows: Vec<Vec<Button>>)
    ensures
        rows_view(rows@) == report_rows(post_id),
        all_complete(rows_view(rows@)),
{
    let mut row: Vec<Button> = Vec::new();
    row.push(button("🗑 Take down", Callback::ReportTake(Some(post_id))));
    row.push(button("✅ Dismiss", Callback::ReportDismiss(Some(post_id))));
    let mut rows: Vec<Vec<Button>> = Vec::new();
    assert(row_view(row@) =~= report_rows(post_id)[0]);
    rows.push(row);
    assert(rows_view(rows@) =~= report_rows(post_id));
    rows
}

// --------------------------------------------------------------- browse ----

/// The buttons under a browse preview: save it, open it on e621 or at the
/// artist's preferred source (e621 itself when none parses), dismiss it,
/// or never show it again.
pub open spec fn browse_rows(id: u64, e621_url: Seq<char>, artist_sources: Seq<Seq<char>>) -> Seq<Seq<ButtonView>> {
    let src = match preferred_source_spec(artist_sources) {
        Some(u) => u,
        None => e621_url,
    };
    seq![
        seq![cb("Send"@, Callback::BrowseSend(Some(id)))],
        seq![link("Check e621 Src"@, e621_url), link("Check src"@, src)],
        seq![cb("Erase"@, Callback::BrowseErase), cb("⏭ Skip forever"@, Callback::BrowseSkip(Some(id)))],
    ]
}

pub fn browse_keyboard(e621_id: u64, e621_url: &str, artist_sources: &Vec<String>) -> (rows: Vec<Vec<Button>>)
    ensures
        rows_view(rows@) == browse_rows(e621_id, e621_url@, views(artist_sources@)),
        all_complete(rows_view(rows@)),
{
    let src = match preferred_artist_source(artist_sources) {
        Some(u) => u,
        None => e621_url.to_owned(),
    };
    let ghost want = browse_rows(e621_id, e621_url@, views(artist_sources@));
    let mut first: Vec<Button> = Vec::new();
    first.push(button("Send", Callback::BrowseSend(Some(e621_id))));
    let mut second: Vec<Button> = Vec::new();
    second.push(Button { label: "Check e621 Src".to_owned(), press: Press::Url(e621_url.to_owned()) });
    second.push(Button { label: "Check src".to_owned(), press: Press::Url(src) });
    let mut third: Vec<Button> = Vec::new();
    third.push(button("Erase", Callback::BrowseErase));
    third.push(button("⏭ Skip forever", Callback::BrowseSkip(Some(e621_id))));
    assert(row_view(first@) =~= want[0]);
    assert(row_view(second@) =~= want[1]);
    assert(row_view(third@) =~= want[2]);
    let mut rows: Vec<Vec<Button>> = Vec::new();
    rows.push(first);
    rows.push(second);
    rows.push(third);
    assert(rows_view(rows@) =~= want);
    rows
}

/// The "More" control under a browse page summary.
pub open spec fn browse_more_rows() -> Seq<Seq<ButtonView>> {
    seq![seq![cb("More ➡"@, Callback::BrowseMore)]]
}

pub fn browse_more_keyboard() -> (rows: Vec<Vec<Button>>)
    ensures
        rows_view(rows@) == browse_more_rows(),
        all_complete(rows_view(rows@)),
{
    let mut row: Vec<Button> = Vec::new();
    row.push(button("More ➡", Callback::BrowseMore));
    let mut rows: Vec<Vec<Button>> = Vec::new();
    assert(row_view(row@) =~= browse_more_rows()[0]);
    rows.push(row);
    assert(rows_view(rows@) =~= browse_more_rows());
    rows
}

} // verus!
