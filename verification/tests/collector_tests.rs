use stage_relay::collector::{collect, Collected, Collector};
use stage_relay::item::{Compressed, RelayError};

fn waiting(state: Result<Collected, RelayError>) -> Collector {
    match state {
        Ok(Collected::Waiting(next)) => next,
        Ok(Collected::Complete(_)) => panic!("the collector completed early"),
        Err(_) => panic!("the collector failed"),
    }
}

fn complete(state: Result<Collected, RelayError>) -> Vec<u8> {
    match state {
        Ok(Collected::Complete(result)) => result,
        Ok(Collected::Waiting(_)) => panic!("the collector still waits"),
        Err(_) => panic!("the collector failed"),
    }
}

#[test]
fn a_new_collector_completes_with_nothing() {
    assert_eq!(complete(Collector::new().accept(None)), Vec::<u8>::new());
}

#[test]
fn accept_appends_in_arrival_order() {
    let collector = Collector::new();
    let collector = waiting(collector.accept(Some(Compressed::Binaries(vec![1, 2]))));
    let collector = waiting(collector.accept(Some(Compressed::Binaries(vec![]))));
    let collector = waiting(collector.accept(Some(Compressed::Binaries(vec![3]))));
    assert_eq!(complete(collector.accept(None)), vec![1, 2, 3]);
}

#[test]
fn accept_fails_on_a_raw_item() {
    let collector = Collector::new();
    let collector = waiting(collector.accept(Some(Compressed::Binaries(vec![1]))));
    let state = collector.accept(Some(Compressed::Bytes(vec![2])));
    assert!(matches!(state, Err(RelayError::UnsupportedVariant)));
}

#[test]
fn accept_fails_on_an_empty_raw_item() {
    let state = Collector::new().accept(Some(Compressed::Bytes(vec![])));
    assert!(matches!(state, Err(RelayError::UnsupportedVariant)));
}

#[test]
fn collect_joins_all_items() {
    let items = vec![
        Compressed::Binaries(vec![1]),
        Compressed::Binaries(vec![2, 3]),
        Compressed::Binaries(vec![]),
        Compressed::Binaries(vec![4]),
    ];
    assert_eq!(collect(items), Ok(vec![1, 2, 3, 4]));
}

#[test]
fn collect_of_nothing_is_empty() {
    assert_eq!(collect(vec![]), Ok(vec![]));
}

#[test]
fn collect_keeps_the_order_of_the_items() {
    let forward = vec![Compressed::Binaries(vec![1]), Compressed::Binaries(vec![2])];
    let backward = vec![Compressed::Binaries(vec![2]), Compressed::Binaries(vec![1])];
    assert_eq!(collect(forward), Ok(vec![1, 2]));
    assert_eq!(collect(backward), Ok(vec![2, 1]));
}

#[test]
fn collect_fails_on_a_raw_item_wherever_it_stands() {
    let first = vec![Compressed::Bytes(vec![1]), Compressed::Binaries(vec![2])];
    let last = vec![Compressed::Binaries(vec![1]), Compressed::Bytes(vec![2])];
    assert_eq!(collect(first), Err(RelayError::UnsupportedVariant));
    assert_eq!(collect(last), Err(RelayError::UnsupportedVariant));
}

#[test]
fn collect_over_two_runs_is_the_first_then_the_second() {
    let first = vec![Compressed::Binaries(vec![1, 2])];
    let then = vec![Compressed::Binaries(vec![3])];
    let mut both = first.clone();
    both.extend(then.clone());
    let mut expected = collect(first).unwrap();
    expected.extend(collect(then).unwrap());
    assert_eq!(collect(both), Ok(expected));
}
