use stage_relay::channel::{channel, Outlet};
use stage_relay::collector::{Collected, Collector};
use stage_relay::item::{Compressed, RelayError};
use stage_relay::runner::{heavy_duty, run_stages, Stage, StageStep};
use tokio::runtime::{Builder, Runtime};
use tokio::sync::mpsc::error::TryRecvError;
use tokio::sync::mpsc::UnboundedReceiver;
use tokio::task::yield_now;

fn one_thread() -> Runtime {
    Builder::new_current_thread().enable_all().build().unwrap()
}

fn two_threads() -> Runtime {
    Builder::new_multi_thread().worker_threads(2).enable_all().build().unwrap()
}

async fn gather(mut rx: UnboundedReceiver<Compressed>) -> Result<Vec<u8>, RelayError> {
    let mut collector = Collector::new();
    loop {
        match collector.accept(rx.recv().await)? {
            Collected::Waiting(next) => collector = next,
            Collected::Complete(result) => return Ok(result),
        }
    }
}

async fn paced_stage(outlet: &mut Outlet, data: Vec<u8>, scratch: &mut Vec<u8>) {
    let mut stage = Stage::new(data, 0);
    loop {
        match stage.step(outlet, scratch).unwrap() {
            StageStep::Pause(_) => yield_now().await,
            StageStep::Finished => return,
        }
    }
}

fn relay(runtime: Runtime, batches: Vec<Vec<u8>>) -> Vec<u8> {
    runtime.block_on(async {
        let (mut outlet, rx) = channel();
        let mut scratch = Vec::new();
        let result = tokio::task::spawn(gather(rx));
        for data in batches {
            paced_stage(&mut outlet, data, &mut scratch).await;
        }
        drop(outlet);
        result.await.unwrap().unwrap()
    })
}

#[test]
fn two_batches_come_out_in_batch_then_element_order() {
    assert_eq!(relay(one_thread(), vec![vec![1, 2, 3], vec![11, 12]]), vec![1, 2, 3, 11, 12]);
}

#[test]
fn the_sample_batches_come_out_end_to_end() {
    let first: Vec<u8> = (1..=10).collect();
    let second: Vec<u8> = (11..=20).collect();
    let expected: Vec<u8> = (1..=20).collect();
    assert_eq!(relay(one_thread(), vec![first, second]), expected);
}

#[test]
fn a_single_element_comes_out_as_itself() {
    assert_eq!(relay(one_thread(), vec![vec![0]]), vec![0]);
    assert_eq!(relay(one_thread(), vec![vec![200]]), vec![200]);
    assert_eq!(relay(one_thread(), vec![vec![255]]), vec![255]);
}

#[test]
fn no_batches_give_an_empty_result() {
    assert_eq!(relay(one_thread(), vec![]), Vec::<u8>::new());
}

#[test]
fn empty_batches_give_an_empty_result() {
    assert_eq!(relay(one_thread(), vec![vec![], vec![]]), Vec::<u8>::new());
}

#[test]
fn order_holds_when_collector_and_stages_run_on_two_threads() {
    let batches: Vec<Vec<u8>> = (0..8u8).map(|b| (0..32u8).map(|x| b * 32 + x).collect()).collect();
    let expected: Vec<u8> = (0..=255u8).collect();
    for _ in 0..20 {
        assert_eq!(relay(two_threads(), batches.clone()), expected);
    }
}

#[test]
fn order_holds_when_the_collector_starts_late() {
    let result = one_thread().block_on(async {
        let (mut outlet, rx) = channel();
        let mut scratch = Vec::new();
        run_stages(&mut outlet, vec![vec![3, 1, 2], vec![9, 8]], &mut scratch).unwrap();
        let result = tokio::task::spawn(gather(rx));
        yield_now().await;
        heavy_duty(&mut outlet, vec![7], &mut scratch).unwrap();
        drop(outlet);
        result.await.unwrap()
    });
    assert_eq!(result, Ok(vec![3, 1, 2, 9, 8, 7]));
}

#[test]
fn a_raw_item_on_the_channel_fails_the_collection() {
    let result = one_thread().block_on(async {
        let (mut outlet, rx) = channel();
        outlet.send(Compressed::Binaries(vec![1])).unwrap();
        outlet.send(Compressed::Bytes(vec![2])).unwrap();
        drop(outlet);
        gather(rx).await
    });
    assert_eq!(result, Err(RelayError::UnsupportedVariant));
}

#[test]
fn send_delivers_the_item_to_the_receiver() {
    let (mut outlet, mut rx) = channel();
    assert_eq!(outlet.send(Compressed::Binaries(vec![1, 2])), Ok(()));
    assert_eq!(outlet.send(Compressed::Bytes(vec![3])), Ok(()));
    assert_eq!(rx.try_recv(), Ok(Compressed::Binaries(vec![1, 2])));
    assert_eq!(rx.try_recv(), Ok(Compressed::Bytes(vec![3])));
    assert_eq!(rx.try_recv(), Err(TryRecvError::Empty));
}

#[test]
fn send_fails_once_the_receiver_is_dropped() {
    let (mut outlet, rx) = channel();
    drop(rx);
    assert_eq!(outlet.send(Compressed::Binaries(vec![1])), Err(RelayError::ChannelClosed));
    assert_eq!(outlet.send(Compressed::Binaries(vec![2])), Err(RelayError::ChannelClosed));
}

#[test]
fn a_drained_and_released_channel_stays_exhausted() {
    one_thread().block_on(async {
        let (mut outlet, mut rx) = channel();
        let mut scratch = Vec::new();
        heavy_duty(&mut outlet, vec![1, 2], &mut scratch).unwrap();
        drop(outlet);
        assert_eq!(rx.recv().await, Some(Compressed::Binaries(vec![1])));
        assert_eq!(rx.recv().await, Some(Compressed::Binaries(vec![2])));
        assert_eq!(rx.recv().await, None);
        assert_eq!(rx.recv().await, None);
        assert_eq!(rx.try_recv(), Err(TryRecvError::Disconnected));
    });
}

#[test]
fn a_released_channel_without_items_is_exhausted_at_once() {
    one_thread().block_on(async {
        let (outlet, mut rx) = channel();
        drop(outlet);
        assert_eq!(rx.recv().await, None);
        assert_eq!(rx.recv().await, None);
    });
}
