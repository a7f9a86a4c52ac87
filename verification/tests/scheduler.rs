use cctui::App;
use cctui::FetchResult;
use cctui::Page;
use cctui::Provider;
use cctui::Source;
use cctui::StatusItem;

fn circleci(name: &str, workflow: &str, branch: Option<&str>, refresh_interval: u64) -> Source {
    Source {
        name: name.to_string(),
        provider: Provider::CircleCi {
            workflow: workflow.to_string(),
            branch: branch.map(|b| b.to_string()),
        },
        refresh_interval,
    }
}

fn page(items: &[(u64, &str)]) -> Page {
    Page {
        items: items
            .iter()
            .map(|(t, s)| StatusItem {
                completed_at: *t,
                status: s.to_string(),
            })
            .collect(),
    }
}

#[test]
fn new_registry_starts_due_and_unknown() {
    let app = App::new(vec![
        circleci("org/a", "build", None, 3),
        circleci("org/b", "build", None, 7),
    ]);
    assert_eq!(app.n_sources(), 2);
    for i in 0..2 {
        assert_eq!(app.countdown(i), 0);
        assert_eq!(app.last_status(i).as_str(), "unknown");
    }
    assert_eq!(app.cursor(), None);
    assert_eq!(app.history().len(), 0);
}

#[test]
fn successful_fetch_resets_countdown_to_refresh_interval() {
    let mut app = App::new(vec![circleci("org/a", "build", None, 4)]);
    assert_eq!(app.due_index(), Some(0));
    app.tick(Some(FetchResult::Success(page(&[(10, "success")]))));
    assert_eq!(app.countdown(0), 4);
    assert_eq!(app.last_status(0).as_str(), "success");
}

#[test]
fn failed_fetch_leaves_countdown_zero_and_status_stale() {
    let mut app = App::new(vec![circleci("org/a", "build", None, 4)]);
    app.tick(Some(FetchResult::Success(page(&[(10, "success")]))));
    // drain the countdown back to zero
    for _ in 0..4 {
        assert_eq!(app.due_index(), None);
        app.tick(None);
    }
    assert_eq!(app.due_index(), Some(0));
    app.tick(Some(FetchResult::Failure));
    assert_eq!(app.countdown(0), 0);
    assert_eq!(app.last_status(0).as_str(), "success");
    // retried on the very next tick
    assert_eq!(app.due_index(), Some(0));
}

#[test]
fn empty_page_sets_unknown_sentinel() {
    let mut app = App::new(vec![circleci("org/a", "build", None, 2)]);
    app.tick(Some(FetchResult::Success(page(&[(10, "success")]))));
    assert_eq!(app.last_status(0).as_str(), "success");
    app.tick(None);
    app.tick(None);
    app.tick(Some(FetchResult::Success(page(&[]))));
    assert_eq!(app.last_status(0).as_str(), "unknown");
    assert_eq!(app.countdown(0), 2);
    // an empty page adds nothing to the history
    assert_eq!(app.history().len(), 1);
}

#[test]
fn at_most_one_source_serviced_per_tick() {
    let mut app = App::new(vec![
        circleci("org/a", "build", None, 5),
        circleci("org/b", "build", None, 5),
    ]);
    // both are due; only the first (registration order) is serviced
    assert_eq!(app.due_index(), Some(0));
    app.tick(Some(FetchResult::Success(page(&[(10, "success")]))));
    assert_eq!(app.countdown(0), 5);
    assert_eq!(app.countdown(1), 0);
    assert_eq!(app.last_status(1).as_str(), "unknown");
    // the skipped due source is reconsidered on the next tick
    assert_eq!(app.due_index(), Some(1));
    app.tick(Some(FetchResult::Success(page(&[(11, "failed")]))));
    assert_eq!(app.countdown(1), 5);
    assert_eq!(app.last_status(1).as_str(), "failed");
    assert_eq!(app.countdown(0), 4);
}

#[test]
fn fold_page_of_seven_keeps_five_newest_in_order() {
    // the scenario: a due source with refresh_interval 3 and a page of 7
    // items, newest first
    let mut app = App::new(vec![circleci("org/a", "build", None, 3)]);
    assert_eq!(app.countdown(0), 0);
    let p = page(&[
        (70, "success"),
        (60, "failed"),
        (50, "success"),
        (40, "error"),
        (30, "success"),
        (20, "failed"),
        (10, "success"),
    ]);
    app.tick(Some(FetchResult::Success(p)));
    assert_eq!(app.countdown(0), 3);
    assert_eq!(app.last_status(0).as_str(), "success");
    let h = app.history();
    assert_eq!(h.len(), 5);
    let times: Vec<u64> = (0..5).map(|i| h.get(i).timestamp).collect();
    assert_eq!(times, vec![30, 40, 50, 60, 70]);
    assert_eq!(h.get(0).status.as_str(), "success");
    assert_eq!(h.get(1).status.as_str(), "error");
    assert_eq!(h.get(4).status.as_str(), "success");
}

#[test]
fn force_refresh_then_one_tick_services_exactly_one_of_four() {
    let mut app = App::new(vec![
        circleci("org/a", "build", None, 6),
        circleci("org/b", "build", None, 6),
        circleci("org/c", "build", None, 6),
        circleci("org/d", "build", None, 6),
    ]);
    // poll everything once so nothing is due any more
    for _ in 0..4 {
        let due = app.due_index();
        assert!(due.is_some());
        app.tick(Some(FetchResult::Success(page(&[(10, "success")]))));
    }
    app.force_refresh_all();
    for i in 0..4 {
        assert_eq!(app.countdown(i), 0);
    }
    app.tick(Some(FetchResult::Success(page(&[(20, "success")]))));
    let serviced: Vec<usize> = (0..4).filter(|&i| app.countdown(i) == 6).collect();
    assert_eq!(serviced, vec![0]);
    for i in 1..4 {
        assert_eq!(app.countdown(i), 0);
    }
}

#[test]
fn fold_alone_updates_status_and_history_but_not_countdowns() {
    let mut app = App::new(vec![circleci("org/a", "build", None, 9)]);
    app.fold(0, &page(&[(5, "failed")]));
    assert_eq!(app.countdown(0), 0);
    assert_eq!(app.last_status(0).as_str(), "failed");
    assert_eq!(app.history().len(), 1);
    assert_eq!(app.history().get(0).timestamp, 5);
    assert_eq!(app.history().get(0).source, 0);
}

#[test]
fn keys_drive_cursor_refresh_and_activation() {
    let mut app = App::new(vec![
        circleci("org/a", "build", None, 3),
        circleci("org/b", "build", None, 3),
        circleci("org/c", "build", None, 3),
    ]);
    assert_eq!(app.on_key('\n'), None); // nothing selected yet
    assert_eq!(app.on_key('j'), None);
    assert_eq!(app.cursor(), Some(0));
    assert_eq!(app.on_key('j'), None);
    assert_eq!(app.cursor(), Some(1));
    assert_eq!(app.on_key('\n'), Some(1)); // activate the selection
    assert_eq!(app.on_key('G'), None);
    assert_eq!(app.cursor(), Some(2));
    assert_eq!(app.on_key('k'), None);
    assert_eq!(app.cursor(), Some(1));
    assert_eq!(app.on_key('g'), None);
    assert_eq!(app.cursor(), Some(0));
    assert_eq!(app.on_key('x'), None); // unmapped key is ignored
    assert_eq!(app.cursor(), Some(0));

    // spend the countdowns, then 'r' makes everything due again
    app.tick(Some(FetchResult::Success(page(&[(10, "success")]))));
    assert_eq!(app.countdown(0), 3);
    assert_eq!(app.on_key('r'), None);
    assert_eq!(app.countdown(0), 0);
    assert_eq!(app.countdown(1), 0);
    assert_eq!(app.countdown(2), 0);
    assert_eq!(app.last_status(0).as_str(), "success");
}
