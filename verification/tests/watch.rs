use dotrs::service::{
    follow_up_action, initial_action, qualifying_event, Debouncer, FsEventKind, Request,
    ServiceAction,
};

fn paths(v: &[&str]) -> Vec<String> {
    v.iter().map(|s| s.to_string()).collect()
}

#[test]
fn only_create_modify_remove_events_qualify() {
    let p = paths(&["src/a.conf"]);
    assert!(qualifying_event(FsEventKind::Create, &p));
    assert!(qualifying_event(FsEventKind::Modify, &p));
    assert!(qualifying_event(FsEventKind::Remove, &p));
    assert!(!qualifying_event(FsEventKind::Other, &p));
}

#[test]
fn events_under_the_metadata_directory_are_ignored() {
    assert!(!qualifying_event(FsEventKind::Modify, &paths(&[".git"])));
    assert!(!qualifying_event(FsEventKind::Modify, &paths(&[".git/index"])));
    assert!(!qualifying_event(FsEventKind::Modify, &paths(&["a.conf", ".git/index"])));
    // a name that merely starts with the same letters is not under it
    assert!(qualifying_event(FsEventKind::Modify, &paths(&[".gitignore"])));
    assert!(qualifying_event(FsEventKind::Modify, &paths(&["sub/file"])));
    assert!(qualifying_event(FsEventKind::Modify, &paths(&[])));
}

#[test]
fn bursts_of_triggers_yield_exactly_one_emission() {
    let mut d = Debouncer::new(100);
    // nothing pending: the timer stays silent
    assert!(!d.fire(50));

    d.trigger(0);
    d.trigger(30);
    d.trigger(60);
    // the window runs from the last trigger
    assert!(!d.fire(159));
    assert!(d.fire(160));
    // and the one emission cleared the flag
    assert!(!d.fire(161));
    assert!(!d.fire(10_000));

    // a new trigger arms a new window with one more emission
    d.trigger(200);
    assert!(!d.fire(299));
    assert!(d.fire(300));
    assert!(!d.fire(301));
}

#[test]
fn consumer_runs_the_matching_operation() {
    assert_eq!(initial_action(Request::Apply), ServiceAction::RunApply);
    assert_eq!(initial_action(Request::Update), ServiceAction::RunUpdate);
    assert_eq!(initial_action(Request::Pull), ServiceAction::RunPull);
}

#[test]
fn only_a_successful_pull_is_followed_by_an_apply() {
    assert_eq!(follow_up_action(Request::Pull, true), Some(ServiceAction::RunApply));
    assert_eq!(follow_up_action(Request::Pull, false), None);
    assert_eq!(follow_up_action(Request::Apply, true), None);
    assert_eq!(follow_up_action(Request::Update, true), None);
}
