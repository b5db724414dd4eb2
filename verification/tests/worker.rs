use nitro::chunks::ChunkRange;
use nitro::worker::{
    byte_range_text, pause_after, status_is_success, ChunkAction, ChunkEvent, ChunkWorker,
};

const RANGE: ChunkRange = ChunkRange { id: 3, start: 100, end: 109 };

fn step(worker: &mut ChunkWorker, event: ChunkEvent) -> ChunkAction {
    assert!(worker.can_take(&event));
    worker.step(event)
}

fn requested(action: ChunkAction) -> String {
    match action {
        ChunkAction::Request { range } => range,
        _ => panic!("no request"),
    }
}

fn written(action: ChunkAction) -> (u64, Vec<u8>) {
    match action {
        ChunkAction::Write { offset, data } => (offset, data),
        _ => panic!("no write"),
    }
}

fn rested(action: ChunkAction) -> u64 {
    match action {
        ChunkAction::Rest { seconds } => seconds,
        _ => panic!("no rest"),
    }
}

#[test]
fn a_chunk_is_fetched_in_one_go() {
    let mut w = ChunkWorker::new(RANGE, 1000);
    assert_eq!(requested(step(&mut w, ChunkEvent::Begin)), "bytes=100-109");
    assert!(matches!(step(&mut w, ChunkEvent::Reply(206)), ChunkAction::Read));
    assert!(matches!(step(&mut w, ChunkEvent::Data(vec![1, 2, 3, 4])), ChunkAction::Read));
    assert!(matches!(step(&mut w, ChunkEvent::Data(vec![5, 6, 7, 8, 9, 10])), ChunkAction::Read));
    assert_eq!(
        written(step(&mut w, ChunkEvent::StreamEnded)),
        (100, vec![1, 2, 3, 4, 5, 6, 7, 8, 9, 10])
    );
    assert!(matches!(step(&mut w, ChunkEvent::Written), ChunkAction::Done { chunk_id: 3 }));
}

#[test]
fn a_full_buffer_is_written_at_once() {
    let mut w = ChunkWorker::new(RANGE, 4);
    step(&mut w, ChunkEvent::Begin);
    step(&mut w, ChunkEvent::Reply(206));
    assert!(matches!(step(&mut w, ChunkEvent::Data(vec![1, 2, 3])), ChunkAction::Read));
    assert_eq!(written(step(&mut w, ChunkEvent::Data(vec![4, 5]))), (100, vec![1, 2, 3, 4, 5]));
    assert!(matches!(step(&mut w, ChunkEvent::Written), ChunkAction::Read));
    assert_eq!(
        written(step(&mut w, ChunkEvent::Data(vec![6, 7, 8, 9, 10]))),
        (105, vec![6, 7, 8, 9, 10])
    );
    assert!(matches!(step(&mut w, ChunkEvent::Written), ChunkAction::Read));
    assert!(matches!(step(&mut w, ChunkEvent::StreamEnded), ChunkAction::Done { chunk_id: 3 }));
}

#[test]
fn a_broken_body_is_taken_up_where_it_broke_off() {
    let mut w = ChunkWorker::new(RANGE, 1000);
    step(&mut w, ChunkEvent::Begin);
    step(&mut w, ChunkEvent::Reply(206));
    step(&mut w, ChunkEvent::Data(vec![1, 2, 3]));
    assert_eq!(written(step(&mut w, ChunkEvent::StreamBroken)), (100, vec![1, 2, 3]));
    assert_eq!(rested(step(&mut w, ChunkEvent::Written)), 2);
    assert_eq!(requested(step(&mut w, ChunkEvent::Rested)), "bytes=103-109");
    step(&mut w, ChunkEvent::Reply(206));
    assert_eq!(rested(step(&mut w, ChunkEvent::StreamBroken)), 4);
    assert_eq!(requested(step(&mut w, ChunkEvent::Rested)), "bytes=103-109");
    step(&mut w, ChunkEvent::Reply(206));
    step(&mut w, ChunkEvent::Data(vec![4, 5, 6, 7, 8, 9, 10]));
    assert_eq!(
        written(step(&mut w, ChunkEvent::StreamEnded)),
        (103, vec![4, 5, 6, 7, 8, 9, 10])
    );
    assert!(matches!(step(&mut w, ChunkEvent::Written), ChunkAction::Done { chunk_id: 3 }));
}

#[test]
fn a_body_that_breaks_off_at_its_end_is_complete() {
    let mut w = ChunkWorker::new(RANGE, 1000);
    step(&mut w, ChunkEvent::Begin);
    step(&mut w, ChunkEvent::Reply(206));
    step(&mut w, ChunkEvent::Data(vec![7; 10]));
    assert_eq!(written(step(&mut w, ChunkEvent::StreamBroken)), (100, vec![7; 10]));
    assert!(matches!(step(&mut w, ChunkEvent::Written), ChunkAction::Done { chunk_id: 3 }));
}

#[test]
fn broken_bodies_count_as_failures_with_pauses() {
    let mut w = ChunkWorker::new(ChunkRange { id: 0, start: 0, end: 99 }, 1000);
    let mut action = step(&mut w, ChunkEvent::Begin);
    for k in 1..=10u32 {
        assert_eq!(requested(action), format!("bytes={}-99", k - 1));
        step(&mut w, ChunkEvent::Reply(206));
        step(&mut w, ChunkEvent::Data(vec![1]));
        written(step(&mut w, ChunkEvent::StreamBroken));
        assert_eq!(rested(step(&mut w, ChunkEvent::Written)), 1 << k.min(5));
        action = step(&mut w, ChunkEvent::Rested);
    }
    assert!(matches!(action, ChunkAction::GiveUp { chunk_id: 0 }));
}

#[test]
fn empty_bodies_count_as_failures() {
    let mut w = ChunkWorker::new(RANGE, 1000);
    let mut action = step(&mut w, ChunkEvent::Begin);
    let mut pauses = Vec::new();
    for _ in 0..10 {
        assert_eq!(requested(action), "bytes=100-109");
        step(&mut w, ChunkEvent::Reply(206));
        pauses.push(rested(step(&mut w, ChunkEvent::StreamEnded)));
        action = step(&mut w, ChunkEvent::Rested);
    }
    assert_eq!(pauses, vec![2, 4, 8, 16, 32, 32, 32, 32, 32, 32]);
    assert!(matches!(action, ChunkAction::GiveUp { chunk_id: 3 }));
}

#[test]
fn a_body_that_ends_early_is_no_failure_if_it_brought_something() {
    let mut w = ChunkWorker::new(RANGE, 2);
    step(&mut w, ChunkEvent::Begin);
    step(&mut w, ChunkEvent::Reply(206));
    written(step(&mut w, ChunkEvent::Data(vec![1, 2])));
    step(&mut w, ChunkEvent::Written);
    assert_eq!(requested(step(&mut w, ChunkEvent::StreamEnded)), "bytes=102-109");
    step(&mut w, ChunkEvent::Reply(206));
    assert_eq!(rested(step(&mut w, ChunkEvent::StreamEnded)), 2);
}

#[test]
fn a_whole_file_is_no_answer_to_a_request_for_a_part() {
    let mut w = ChunkWorker::new(ChunkRange { id: 1, start: 4, end: 7 }, 1000);
    let mut action = step(&mut w, ChunkEvent::Begin);
    for _ in 0..10 {
        assert_eq!(requested(action), "bytes=4-7");
        rested(step(&mut w, ChunkEvent::Reply(200)));
        assert!(!w.can_take(&ChunkEvent::Data(vec![0; 12])));
        action = step(&mut w, ChunkEvent::Rested);
    }
    assert!(matches!(action, ChunkAction::GiveUp { chunk_id: 1 }));
}

#[test]
fn the_first_chunk_takes_no_more_than_its_share() {
    let mut w = ChunkWorker::new(ChunkRange { id: 0, start: 0, end: 3 }, 1000);
    step(&mut w, ChunkEvent::Begin);
    assert!(matches!(step(&mut w, ChunkEvent::Reply(200)), ChunkAction::Read));
    assert!(matches!(step(&mut w, ChunkEvent::Data(vec![1, 2, 3])), ChunkAction::Read));
    assert!(matches!(step(&mut w, ChunkEvent::Data(vec![4, 5, 6])), ChunkAction::Read));
    assert!(matches!(step(&mut w, ChunkEvent::Data(vec![7, 8])), ChunkAction::Read));
    assert_eq!(written(step(&mut w, ChunkEvent::StreamEnded)), (0, vec![1, 2, 3, 4]));
    assert!(matches!(step(&mut w, ChunkEvent::Written), ChunkAction::Done { chunk_id: 0 }));

    let mut w = ChunkWorker::new(RANGE, 4);
    step(&mut w, ChunkEvent::Begin);
    step(&mut w, ChunkEvent::Reply(206));
    assert_eq!(written(step(&mut w, ChunkEvent::Data(vec![9; 100]))), (100, vec![9; 10]));
}

#[test]
fn a_worker_gives_up_after_ten_failures() {
    let mut w = ChunkWorker::new(RANGE, 1000);
    let mut action = step(&mut w, ChunkEvent::Begin);
    let mut pauses = Vec::new();
    for i in 0..10 {
        assert_eq!(requested(action), "bytes=100-109");
        let event = if i % 2 == 0 { ChunkEvent::NoReply } else { ChunkEvent::Reply(503) };
        pauses.push(rested(step(&mut w, event)));
        action = step(&mut w, ChunkEvent::Rested);
    }
    assert_eq!(pauses, vec![2, 4, 8, 16, 32, 32, 32, 32, 32, 32]);
    assert!(matches!(action, ChunkAction::GiveUp { chunk_id: 3 }));
}

#[test]
fn only_a_full_buffer_wipes_out_the_failures() {
    let mut w = ChunkWorker::new(ChunkRange { id: 0, start: 0, end: 99 }, 2);
    step(&mut w, ChunkEvent::Begin);
    for _ in 0..9 {
        assert!(rested(step(&mut w, ChunkEvent::NoReply)) > 0);
        requested(step(&mut w, ChunkEvent::Rested));
    }
    step(&mut w, ChunkEvent::Reply(206));
    assert_eq!(written(step(&mut w, ChunkEvent::Data(vec![1, 2]))).0, 0);
    step(&mut w, ChunkEvent::Written);
    assert_eq!(rested(step(&mut w, ChunkEvent::StreamBroken)), 2);
    requested(step(&mut w, ChunkEvent::Rested));
    assert_eq!(rested(step(&mut w, ChunkEvent::NoReply)), 4);

    let mut w = ChunkWorker::new(ChunkRange { id: 0, start: 0, end: 99 }, 1000);
    step(&mut w, ChunkEvent::Begin);
    rested(step(&mut w, ChunkEvent::NoReply));
    requested(step(&mut w, ChunkEvent::Rested));
    step(&mut w, ChunkEvent::Reply(206));
    step(&mut w, ChunkEvent::Data(vec![1, 2]));
    written(step(&mut w, ChunkEvent::StreamEnded));
    assert_eq!(requested(step(&mut w, ChunkEvent::Written)), "bytes=2-99");
    assert_eq!(rested(step(&mut w, ChunkEvent::NoReply)), 4);
}

#[test]
fn bytes_reach_the_file_in_order_whatever_fails() {
    let range = ChunkRange { id: 1, start: 5, end: 64 };
    let content: Vec<u8> = (0..70).collect();
    for buffer_size in [1, 3, 7, 100] {
        let mut file = vec![0u8; 70];
        let mut w = ChunkWorker::new(range, buffer_size);
        let mut at = 5usize;
        let mut turn = 0;
        let mut event = ChunkEvent::Begin;
        loop {
            turn += 1;
            assert!(turn < 10000);
            event = match step(&mut w, event) {
                ChunkAction::Request { range } => {
                    assert_eq!(range, format!("bytes={}-64", at));
                    if turn % 5 == 0 { ChunkEvent::NoReply } else { ChunkEvent::Reply(206) }
                }
                ChunkAction::Rest { .. } => ChunkEvent::Rested,
                ChunkAction::Read => {
                    if at > 64 {
                        ChunkEvent::StreamEnded
                    } else if turn % 7 == 0 {
                        ChunkEvent::StreamBroken
                    } else {
                        let end = (at + 4).min(65);
                        let data = content[at..end].to_vec();
                        at = end;
                        ChunkEvent::Data(data)
                    }
                }
                ChunkAction::Write { offset, data } => {
                    let offset = offset as usize;
                    file[offset..offset + data.len()].copy_from_slice(&data);
                    ChunkEvent::Written
                }
                ChunkAction::Done { chunk_id } => {
                    assert_eq!(chunk_id, 1);
                    break;
                }
                ChunkAction::GiveUp { .. } => panic!("gave up"),
            };
        }
        assert_eq!(file[5..65], content[5..65]);
        assert!(file[..5].iter().all(|b| *b == 0) && file[65..].iter().all(|b| *b == 0));
    }
}

#[test]
fn events_out_of_turn_are_not_taken() {
    let mut w = ChunkWorker::new(RANGE, 10);
    assert!(!w.can_take(&ChunkEvent::Reply(200)));
    assert!(!w.can_take(&ChunkEvent::NoReply));
    assert!(!w.can_take(&ChunkEvent::Rested));
    assert!(!w.can_take(&ChunkEvent::Data(vec![1])));
    assert!(!w.can_take(&ChunkEvent::StreamEnded));
    assert!(!w.can_take(&ChunkEvent::StreamBroken));
    assert!(!w.can_take(&ChunkEvent::Written));
    step(&mut w, ChunkEvent::Begin);
    assert!(!w.can_take(&ChunkEvent::Begin));
}

#[test]
fn positions_stay_within_bounds() {
    let range = ChunkRange { id: 0, start: u64::MAX - 3, end: u64::MAX - 1 };
    let mut w = ChunkWorker::new(range, 100);
    step(&mut w, ChunkEvent::Begin);
    step(&mut w, ChunkEvent::Reply(206));
    step(&mut w, ChunkEvent::Data(vec![1, 2, 3, 4, 5]));
    assert_eq!(
        written(step(&mut w, ChunkEvent::StreamEnded)),
        (u64::MAX - 3, vec![1, 2, 3])
    );
    assert!(matches!(step(&mut w, ChunkEvent::Written), ChunkAction::Done { chunk_id: 0 }));
}

#[test]
fn statuses_pauses_and_ranges() {
    assert!(status_is_success(200) && status_is_success(206) && status_is_success(299));
    assert!(!status_is_success(199) && !status_is_success(300) && !status_is_success(416));
    assert_eq!(pause_after(0), 1);
    assert_eq!(pause_after(1), 2);
    assert_eq!(pause_after(5), 32);
    assert_eq!(pause_after(u32::MAX), 32);
    assert_eq!(byte_range_text(0, 0), "bytes=0-0");
    assert_eq!(byte_range_text(134217728, 268435455), "bytes=134217728-268435455");
}
