use yiffy_corner::scheduler::ResolveOutcome;
use yiffy_corner::pool_batch::{chunk_size, pool_targets, PoolBatch, PoolBatchReport, PoolStep};
use yiffy_corner::poster::{InMemoryPosterRepository, PostInterval, Poster};
use yiffy_corner::tag_rule::{TagLiteral, TagTerm};

fn s(x: &str) -> String {
    x.to_string()
}

fn tags(ts: &[&str]) -> Vec<String> {
    ts.iter().map(|t| s(t)).collect()
}

fn posters(specs: &[(&[&str], &[&str])]) -> Vec<Poster> {
    let mut repo = InMemoryPosterRepository::new();
    for (subscribed, forbidden) in specs {
        repo.create(
            subscribed.iter().map(|t| TagTerm(vec![TagLiteral::Has(s(t))])).collect(),
            tags(forbidden),
            PostInterval::new(5).unwrap(),
            0,
        )
        .unwrap();
    }
    repo.list_all()
}

struct Run {
    report: PoolBatchReport,
    /// (page, target) of every send, in order.
    sends: Vec<(usize, usize)>,
    pauses: usize,
    marked: Vec<usize>,
}

/// Drive a batch the way the bot does: resolve each page (`dead` pages are
/// gone upstream, `flaky` ones fail for now), send as told, mark gone
/// pages, wait out every pause.
fn run(pages: &[Vec<String>], dead: &[usize], trigger: &[String], all_posters: &Vec<Poster>) -> Run {
    run_with(pages, dead, &[], trigger, all_posters)
}

fn run_with(pages: &[Vec<String>], dead: &[usize], flaky: &[usize], trigger: &[String], all_posters: &Vec<Poster>) -> Run {
    let targets = pool_targets(all_posters, &vec![true; all_posters.len()], trigger);
    let forbidden: Vec<Vec<String>> = targets.iter().map(|p| p.forbidden_tags.clone()).collect();
    let (mut batch, mut step) = PoolBatch::new(pages.to_vec(), forbidden);
    let mut sends = Vec::new();
    let mut pauses = 0;
    let mut marked = Vec::new();
    loop {
        step = match step {
            PoolStep::Resolve(i) => batch.on_resolved(if dead.contains(&i) {
                ResolveOutcome::Gone
            } else if flaky.contains(&i) {
                ResolveOutcome::Failed
            } else {
                ResolveOutcome::Resolved
            }),
            PoolStep::MarkGone(i) => {
                marked.push(i);
                batch.on_marked()
            }
            PoolStep::Send { page, target } => {
                sends.push((page, target));
                batch.on_sent(true)
            }
            PoolStep::Pause => {
                pauses += 1;
                batch.on_paused()
            }
            PoolStep::Done => break,
        };
    }
    Run { report: batch.report(), sends, pauses, marked }
}

#[test]
fn publishes_every_page_in_order_to_matching_posters() {
    let ps = posters(&[(&["wolf"], &[])]);
    let pages = vec![tags(&["wolf"]), tags(&["wolf"]), tags(&["wolf"])];
    let r = run(&pages, &[], &tags(&["wolf"]), &ps);
    assert_eq!(r.report.channels, 1);
    assert_eq!(r.report.published, 3);
    assert_eq!(r.report.send_failures, 0);
    assert_eq!(r.sends, vec![(0, 0), (1, 0), (2, 0)]);
    assert_eq!(r.pauses, 0);
}

#[test]
fn eligibility_follows_the_trigger_not_each_page() {
    let ps = posters(&[(&["wolf"], &[])]);
    let pages = vec![tags(&["wolf", "comic"]), tags(&["landscape"])];
    let r = run(&pages, &[], &tags(&["wolf"]), &ps);
    assert_eq!(r.report.published, 2);

    let ps = posters(&[(&["dragon"], &[])]);
    let r = run(&[tags(&["wolf"])], &[], &tags(&["wolf"]), &ps);
    assert_eq!(r.report.channels, 0);
    assert!(r.sends.is_empty());
}

#[test]
fn poster_forbidden_tags_still_skip_individual_pages() {
    let ps = posters(&[(&["wolf"], &["vore"])]);
    let pages = vec![tags(&["wolf"]), tags(&["wolf", "vore"])];
    let r = run(&pages, &[], &tags(&["wolf"]), &ps);
    assert_eq!(r.report.published, 1);
    assert_eq!(r.report.poster_skips, 1);
}

#[test]
fn dead_pages_are_shelved_and_the_batch_continues() {
    let ps = posters(&[(&["wolf"], &[])]);
    let pages = vec![tags(&["wolf"]), tags(&["wolf"])];
    let r = run(&pages, &[0], &tags(&["wolf"]), &ps);
    assert_eq!(r.report.published, 1);
    assert_eq!(r.report.unresolved, 1);
    assert_eq!(r.sends, vec![(1, 0)]);
}

#[test]
fn big_pools_are_chunked_small_ones_burst() {
    let ps = posters(&[(&["wolf"], &[])]);
    let pages: Vec<Vec<String>> = (0..12).map(|_| tags(&["wolf"])).collect();
    let r = run(&pages, &[], &tags(&["wolf"]), &ps);
    assert_eq!(r.report.published, 12);
    assert_eq!(r.sends.len(), 12);
    assert_eq!(r.pauses, 2); // groups of 5, 5 and 2
    assert_eq!(chunk_size(12), 5);
    assert_eq!(chunk_size(10), 10);
    assert_eq!(chunk_size(3), 3);
}

#[test]
fn every_target_gets_every_page_it_does_not_forbid() {
    let ps = posters(&[(&["wolf"], &[]), (&["wolf"], &["gore"]), (&["fox"], &[])]);
    let pages = vec![tags(&["wolf"]), tags(&["wolf", "gore"])];
    let r = run(&pages, &[], &tags(&["wolf"]), &ps);
    assert_eq!(r.report.channels, 2);
    assert_eq!(r.sends, vec![(0, 0), (0, 1), (1, 0)]);
    assert_eq!(r.report.published, 2);
    assert_eq!(r.report.poster_skips, 1);
}

#[test]
fn refused_sends_are_counted_and_a_page_nobody_took_is_not_published() {
    let ps = posters(&[(&["wolf"], &[])]);
    let targets = pool_targets(&ps, &[true], &tags(&["wolf"]));
    let forbidden: Vec<Vec<String>> = targets.iter().map(|p| p.forbidden_tags.clone()).collect();
    let (mut batch, step) = PoolBatch::new(vec![tags(&["wolf"])], forbidden);
    assert_eq!(step, PoolStep::Resolve(0));
    assert_eq!(batch.on_resolved(ResolveOutcome::Resolved), PoolStep::Send { page: 0, target: 0 });
    assert_eq!(batch.on_sent(false), PoolStep::Done);
    let report = batch.report();
    assert_eq!(report.send_failures, 1);
    assert_eq!(report.published, 0);
}

#[test]
fn an_empty_batch_is_done_at_once() {
    let (batch, step) = PoolBatch::new(vec![], vec![vec![]]);
    assert_eq!(step, PoolStep::Done);
    assert_eq!(batch.report().published, 0);
    let (_, step) = PoolBatch::new(vec![tags(&["wolf"])], vec![]);
    assert_eq!(step, PoolStep::Done);
}

#[test]
fn gone_pages_are_marked_and_the_batch_goes_on() {
    let pages: Vec<Vec<String>> = (0..4).map(|_| vec!["wolf".to_string()]).collect();
    let mut posters = yiffy_corner::poster::InMemoryPosterRepository::new();
    posters.create(vec![], vec![], yiffy_corner::poster::PostInterval::new(5).unwrap(), 0).unwrap();
    let all = posters.list_all();
    let r = run_with(&pages, &[1], &[2], &["wolf".to_string()], &all);
    assert_eq!(r.marked, vec![1]);
    assert_eq!(r.report.unresolved, 2);
    assert_eq!(r.report.published, 2);
    assert_eq!(r.sends, vec![(0, 0), (3, 0)]);
}

#[test]
fn unbound_posters_get_no_share_of_the_batch() {
    let ps = posters(&[(&["wolf"], &[]), (&["wolf"], &[]), (&["fox"], &[])]);
    let targets = pool_targets(&ps, &[true, false, true], &tags(&["wolf"]));
    assert_eq!(targets.len(), 1);
    assert_eq!(targets[0].id, ps[0].id);
    let (batch, _) = PoolBatch::new(vec![tags(&["wolf"])], vec![targets[0].forbidden_tags.clone()]);
    assert_eq!(batch.report().channels, 1);
}
