use mensa::fetch_state::{after_poll, FetchState, WorkerPoll};
use mensa::ingredients::tokenize_ingredients;
use mensa::meal::Meal;

fn meal(name: &str) -> Meal {
    Meal {
        name: name.to_owned(),
        ingredients: tokenize_ingredients("Reis").unwrap(),
        price: "1 €".to_owned(),
        unit: "Portion".to_owned(),
    }
}

#[test]
fn finished_worker_ends_the_wait_with_its_result() {
    let (state, waiting) = after_poll(FetchState::Loading, WorkerPoll::Finished(Ok(vec![meal("Curry")])));
    assert!(!waiting);
    match state {
        FetchState::Ready(meals) => assert_eq!(meals[0].name, "Curry"),
        other => panic!("{other:?}"),
    }
    let (state, waiting) = after_poll(FetchState::Loading, WorkerPoll::Finished(Ok(Vec::new())));
    assert!(!waiting);
    assert!(matches!(state, FetchState::Empty));
    let (state, waiting) = after_poll(FetchState::Loading, WorkerPoll::Finished(Err("offline".to_owned())));
    assert!(!waiting);
    assert!(matches!(state, FetchState::Failed(m) if m == "offline"));
}

#[test]
fn pending_worker_keeps_the_state_and_the_wait() {
    let (state, waiting) = after_poll(FetchState::Loading, WorkerPoll::Pending);
    assert!(waiting);
    assert!(matches!(state, FetchState::Loading));
}

#[test]
fn vanished_worker_fails_the_fetch() {
    let (state, waiting) = after_poll(FetchState::Loading, WorkerPoll::Disconnected);
    assert!(!waiting);
    assert!(matches!(state, FetchState::Failed(m) if m == "Worker thread disconnected"));
}
