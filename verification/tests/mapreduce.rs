use cuely::mapreduce::connect::{
    rest_millis, ConnectAction, ConnectEvent, Connecting, RETRY_BASE_MILLIS, RETRY_LIMIT,
};
use cuely::mapreduce::error::Error;
use cuely::mapreduce::exchange::{Exchange, ExchangeAction, ExchangeEvent};
use cuely::mapreduce::manager::{JobAction, JobEvent, Manager, MapAction, REST_MILLIS};
use cuely::mapreduce::message::{
    ends_with_mark, frame, Progress, Response, BUF_SIZE, END_BYTE,
};
use cuely::mapreduce::pool::{WorkerGuard, WorkerPool};
use cuely::mapreduce::reduce::{accumulate, merge, reduce, reduce_end, Reduce};

fn received(chunks: &[&[u8]]) -> Result<Vec<u8>, Progress> {
    let mut response = Response::new();
    let mut progress = Progress::ReadAgain;
    for chunk in chunks {
        progress = response.receive(Some(chunk));
        match progress {
            Progress::Complete => return Ok(response.into_payload()),
            Progress::NoResponse => return Err(progress),
            Progress::ReadAgain => {}
        }
    }
    Err(progress)
}

#[test]
fn message_is_payload_and_mark() {
    assert_eq!(BUF_SIZE, 4096);
    assert_eq!(END_BYTE, 42);
    let message = frame(vec![1, 2, 3]);
    assert_eq!(message.len(), 4099);
    assert_eq!(&message[..3], &[1, 2, 3]);
    assert!(message[3..].iter().all(|b| *b == 42));
    assert!(ends_with_mark(&message));
    assert!(!ends_with_mark(&message[..4098].to_vec()));
    assert_eq!(frame(Vec::new()), vec![42; 4096]);
}

#[test]
fn message_is_received_however_it_is_cut() {
    let payload: Vec<u8> = (0..10_000u32).map(|i| (i % 251) as u8).chain([7u8]).collect();
    let message = frame(payload.clone());
    for size in [1usize, 7, 100, 4095, 4096, 20_000] {
        let chunks: Vec<&[u8]> = message.chunks(size).collect();
        assert_eq!(received(&chunks), Ok(payload.clone()));
    }
    assert_eq!(received(&[&frame(Vec::new())]), Ok(Vec::new()));
}

#[test]
fn mark_at_the_end_of_a_read_ends_the_message() {
    let message = frame(vec![42]);
    assert_eq!(received(&[&message[..]]), Ok(vec![42]));
    assert_eq!(received(&[&message[..4096], &message[4096..]]), Ok(Vec::new()));
}

#[test]
fn incomplete_message_is_read_on() {
    let message = frame(vec![1, 2]);
    assert_eq!(received(&[&message[..4097]]), Err(Progress::ReadAgain));
    assert_eq!(received(&[&message[..4097], &message[4097..]]), Ok(vec![1, 2]));
}

#[test]
fn stream_that_ends_early_is_no_response() {
    let message = frame(vec![1, 2]);
    for len in [1, 2, 4096, 4097] {
        assert_eq!(received(&[&message[..len], &[]]), Err(Progress::NoResponse));
        assert_eq!(
            received(&[&message[..len], &[], &message[len..]]),
            Err(Progress::NoResponse)
        );
    }
    let mut response = Response::new();
    assert_eq!(response.receive(Some(&message[..10])), Progress::ReadAgain);
    assert_eq!(response.receive(None), Progress::ReadAgain);
    assert_eq!(response.receive(Some(&[])), Progress::NoResponse);
}

#[test]
fn message_that_is_there_is_not_read_on() {
    let message = frame(vec![1, 2]);
    assert_eq!(received(&[&message[..], &[], &[3]]), Ok(vec![1, 2]));
}

#[test]
fn stream_that_ends_at_once_is_no_response() {
    assert_eq!(received(&[&[]]), Err(Progress::NoResponse));
    let mut response = Response::new();
    assert_eq!(response.receive(None), Progress::ReadAgain);
    assert_eq!(response.receive(Some(&[])), Progress::NoResponse);
}

#[test]
fn failed_reads_are_ignored() {
    let message = frame(vec![9]);
    let mut response = Response::new();
    assert_eq!(response.receive(None), Progress::ReadAgain);
    assert_eq!(response.receive(Some(&message[..10])), Progress::ReadAgain);
    assert_eq!(response.receive(None), Progress::ReadAgain);
    assert_eq!(response.receive(Some(&message[10..])), Progress::Complete);
    assert_eq!(response.into_payload(), vec![9]);
}

#[test]
fn connecting_gives_up_after_the_last_attempt() {
    assert_eq!(RETRY_BASE_MILLIS, 10);
    assert_eq!(RETRY_LIMIT, 5);
    let mut connecting = Connecting::new();
    let mut event = ConnectEvent::Started;
    for millis in [10, 100, 1_000, 10_000, 100_000] {
        assert_eq!(connecting.step(event), ConnectAction::Connect);
        assert_eq!(connecting.step(ConnectEvent::Refused), ConnectAction::Rest(millis));
        event = ConnectEvent::Rested;
    }
    assert_eq!(connecting.step(event), ConnectAction::Fail(Error::NoResponse));
    assert_eq!(connecting.step(event), ConnectAction::Fail(Error::NoResponse));
}

#[test]
fn connection_is_used_at_once() {
    let mut connecting = Connecting::new();
    assert_eq!(connecting.step(ConnectEvent::Started), ConnectAction::Connect);
    assert_eq!(connecting.step(ConnectEvent::Refused), ConnectAction::Rest(10));
    assert_eq!(connecting.step(ConnectEvent::Rested), ConnectAction::Connect);
    assert_eq!(connecting.step(ConnectEvent::Connected), ConnectAction::Proceed);
}

#[test]
fn rests_grow_as_far_as_they_can() {
    assert_eq!(rest_millis(1), 10);
    assert_eq!(rest_millis(5), 100_000);
    assert_eq!(rest_millis(19), 10_000_000_000_000_000_000);
    assert_eq!(rest_millis(20), u64::MAX);
    assert_eq!(rest_millis(usize::MAX), u64::MAX);
    for attempts in 1..25 {
        assert_eq!(rest_millis(attempts + 1), rest_millis(attempts).saturating_mul(10));
    }
}

fn lend(pool: &mut WorkerPool<u16>) -> WorkerGuard<u16> {
    pool.get_worker().unwrap().unwrap()
}

fn addresses(workers: &[cuely::mapreduce::pool::RemoteWorker<u16>]) -> Vec<u16> {
    workers.iter().map(|w| w.addr).collect()
}

#[test]
fn pool_has_every_address_that_was_resolved() {
    let pool = WorkerPool::new(&vec![vec![1u16, 2], Vec::new(), vec![3, 2]]);
    assert_eq!(addresses(&pool.workers()), vec![1, 2, 3, 2]);
}

#[test]
fn pool_lends_the_last_ready_worker() {
    let mut pool = WorkerPool::new(&vec![vec![1u16, 2, 3]]);
    let third = lend(&mut pool);
    assert_eq!(third.worker().addr, 3);
    let second = lend(&mut pool);
    assert_eq!(second.worker().addr, 2);
    third.success(&mut pool);
    assert_eq!(lend(&mut pool).worker().addr, 3);
    assert_eq!(lend(&mut pool).worker().addr, 1);
    assert!(matches!(pool.get_worker(), Ok(None)));
    second.failure(&mut pool);
    assert!(matches!(pool.get_worker(), Ok(None)));
    assert_eq!(addresses(&pool.workers()), vec![1, 2, 3]);
}

#[test]
fn failed_worker_is_never_lent_again() {
    let mut pool = WorkerPool::new(&vec![vec![1u16, 2]]);
    let second = lend(&mut pool);
    second.failure(&mut pool);
    for _ in 0..3 {
        let first = lend(&mut pool);
        assert_eq!(first.worker().addr, 1);
        first.success(&mut pool);
    }
    lend(&mut pool).failure(&mut pool);
    assert!(matches!(pool.get_worker(), Err(Error::NoAvailableWorker)));
    assert!(matches!(pool.get_worker(), Err(Error::NoAvailableWorker)));
}

#[test]
fn pool_of_nobody_has_no_worker() {
    let mut pool = WorkerPool::<u16>::new(&Vec::new());
    assert!(matches!(pool.get_worker(), Err(Error::NoAvailableWorker)));
}

#[test]
fn workers_that_did_not_stop_are_told() {
    let pool = WorkerPool::new(&vec![vec![1u16, 2, 3, 4]]);
    let unstopped = pool.stop_workers(&vec![true, false, true, false]);
    assert_eq!(addresses(&unstopped), vec![2, 4]);
    assert!(pool.stop_workers(&vec![true; 4]).is_empty());
}

/// Does a job with workers of which only those in `able` can do it. Gives the workers
/// that were tried, and the worker that did it.
fn do_job(manager: &mut Manager<u16>, able: &[u16]) -> (Vec<u16>, Option<u16>) {
    let mut tried = Vec::new();
    loop {
        let mut event: JobEvent<u16, u16> = JobEvent::Started;
        let outcome = loop {
            match manager.try_map(event) {
                JobAction::Perform(guard) => {
                    let addr = guard.worker().addr;
                    tried.push(addr);
                    let outcome = if able.contains(&addr) { Ok(addr) } else { Err(Error::Io) };
                    event = JobEvent::Performed(guard, outcome);
                }
                JobAction::Rest(_) => panic!("nobody else has a worker"),
                JobAction::Return(outcome) => break outcome,
            }
        };
        match Manager::<u16>::map(outcome) {
            MapAction::Return(addr) => return (tried, Some(addr)),
            MapAction::Panic(error) => {
                assert_eq!(error, Error::NoAvailableWorker);
                return (tried, None);
            }
            MapAction::Reschedule => {}
        }
    }
}

#[test]
fn job_goes_from_worker_to_worker_until_one_does_it() {
    let mut manager = Manager::new(&vec![vec![1u16, 2], vec![3, 4]]);
    assert_eq!(do_job(&mut manager, &[2, 1]), (vec![4, 3, 2], Some(2)));
    assert_eq!(do_job(&mut manager, &[2, 1]), (vec![2], Some(2)));
    assert_eq!(do_job(&mut manager, &[]), (vec![2, 1], None));
    assert_eq!(do_job(&mut manager, &[1]), (Vec::new(), None));
}

#[test]
fn job_waits_while_all_workers_are_running() {
    let mut manager = Manager::new(&vec![vec![1u16]]);
    let guard = match manager.try_map::<u8>(JobEvent::Started) {
        JobAction::Perform(guard) => guard,
        _ => panic!("a worker was ready"),
    };
    assert_eq!(REST_MILLIS, 1000);
    assert!(matches!(manager.try_map::<u8>(JobEvent::Started), JobAction::Rest(1000)));
    assert!(matches!(manager.try_map::<u8>(JobEvent::Rested), JobAction::Rest(1000)));
    assert!(matches!(
        manager.try_map(JobEvent::Performed(guard, Ok(5u8))),
        JobAction::Return(Ok(5))
    ));
    assert!(matches!(manager.try_map::<u8>(JobEvent::Rested), JobAction::Perform(_)));
}

#[test]
fn failed_try_gives_its_error_back() {
    for error in [Error::NoResponse, Error::Io, Error::Codec] {
        let mut manager = Manager::new(&vec![vec![1u16]]);
        let guard = match manager.try_map::<u8>(JobEvent::Started) {
            JobAction::Perform(guard) => guard,
            _ => panic!("a worker was ready"),
        };
        match manager.try_map::<u8>(JobEvent::Performed(guard, Err(error))) {
            JobAction::Return(Err(e)) => assert_eq!(e, error),
            _ => panic!("the try is over"),
        }
        assert!(matches!(Manager::<u16>::map::<u8>(Err(error)), MapAction::Reschedule));
        assert!(matches!(
            manager.try_map::<u8>(JobEvent::Started),
            JobAction::Return(Err(Error::NoAvailableWorker))
        ));
    }
    assert!(matches!(
        Manager::<u16>::map::<u8>(Err(Error::NoAvailableWorker)),
        MapAction::Panic(Error::NoAvailableWorker)
    ));
    assert!(matches!(Manager::<u16>::map(Ok(3u8)), MapAction::Return(3)));
}

#[derive(Debug, Clone, PartialEq)]
struct Log(String);

impl From<u32> for Log {
    fn from(n: u32) -> Log {
        Log(format!("<{}", n))
    }
}

impl Reduce<u32> for Log {
    fn reduce(self, n: u32) -> Log {
        Log(format!("{} {}", self.0, n))
    }
}

impl Reduce<Log> for Log {
    fn reduce(self, other: Log) -> Log {
        Log(format!("{} + {}", self.0, other.0))
    }
}

#[derive(Debug, Clone, Copy, PartialEq)]
struct Sum(u64);

impl From<u32> for Sum {
    fn from(n: u32) -> Sum {
        Sum(n as u64)
    }
}

impl Reduce<u32> for Sum {
    fn reduce(self, n: u32) -> Sum {
        Sum(self.0 + n as u64)
    }
}

impl Reduce<Sum> for Sum {
    fn reduce(self, other: Sum) -> Sum {
        Sum(self.0 + other.0)
    }
}

#[test]
fn first_result_is_converted_and_the_others_are_reduced() {
    assert_eq!(reduce::<u32, Log>(None, 1), Log("<1".to_string()));
    assert_eq!(reduce(Some(Log("<1".to_string())), 2u32), Log("<1 2".to_string()));
    let a = Log("a".to_string());
    let b = Log("b".to_string());
    assert_eq!(reduce_end(None, a.clone()), a.clone());
    assert_eq!(reduce_end(Some(a), b), Log("a + b".to_string()));
}

#[test]
fn partial_results_come_together_in_order() {
    let mut first: Option<Log> = None;
    for n in [1u32, 2, 3] {
        first = accumulate(first, n);
    }
    assert_eq!(first, Some(Log("<1 2 3".to_string())));
    let second = accumulate(None, 4u32);
    assert_eq!(
        merge(vec![None, first, None, second]),
        Some(Log("<1 2 3 + <4".to_string()))
    );
    assert_eq!(merge::<Log>(vec![None, None]), None);
    assert_eq!(merge::<Log>(Vec::new()), None);
}

fn sum_of(groups: &[&[u32]]) -> Option<Sum> {
    let partials: Vec<Option<Sum>> = groups
        .iter()
        .map(|group| group.iter().fold(None, |acc, n| accumulate(acc, *n)))
        .collect();
    merge(partials)
}

#[derive(Debug, PartialEq)]
struct Joined(Vec<u32>);

impl From<u32> for Joined {
    fn from(n: u32) -> Joined {
        Joined(vec![n])
    }
}

impl Reduce<u32> for Joined {
    fn reduce(mut self, n: u32) -> Joined {
        self.0.push(n);
        self
    }
}

impl Reduce<Joined> for Joined {
    fn reduce(mut self, other: Joined) -> Joined {
        self.0.extend(other.0);
        self
    }
}

#[test]
fn result_is_the_total_in_the_order_of_the_threads() {
    let joined = |groups: &[&[u32]]| -> Option<Joined> {
        let partials: Vec<Option<Joined>> = groups
            .iter()
            .map(|group| group.iter().fold(None, |acc, n| accumulate(acc, *n)))
            .collect();
        merge(partials)
    };
    assert_eq!(joined(&[&[3, 1], &[], &[2]]), Some(Joined(vec![3, 1, 2])));
    assert_eq!(joined(&[&[], &[3], &[1, 2]]), Some(Joined(vec![3, 1, 2])));
    assert_eq!(joined(&[&[2], &[3, 1]]), Some(Joined(vec![2, 3, 1])));
    assert_eq!(joined(&[&[], &[], &[]]), None);
}

#[test]
fn schedule_does_not_matter() {
    assert_eq!(sum_of(&[&[1, 2, 3, 4, 5]]), Some(Sum(15)));
    assert_eq!(sum_of(&[&[5], &[], &[2, 1], &[4, 3]]), Some(Sum(15)));
    assert_eq!(sum_of(&[&[], &[3, 1, 2], &[5, 4]]), Some(Sum(15)));
    assert_eq!(sum_of(&[&[], &[]]), None);
}

#[test]
fn run_gives_the_result_and_the_workers_to_stop() {
    let mut manager = Manager::new(&vec![vec![1u16, 2, 3]]);
    assert_eq!(do_job(&mut manager, &[1]), (vec![3, 2, 1], Some(1)));
    let (result, workers) = manager.run(vec![Some(Sum(4)), None, Some(Sum(6))]);
    assert_eq!(result, Some(Sum(10)));
    assert_eq!(addresses(&workers), vec![1, 2, 3]);
    assert_eq!(addresses(&manager.stop_workers(&vec![true, false, true])), vec![2]);
    assert_eq!(Manager::<u16>::get_results::<Sum>(Vec::new()), None);
}

fn connected(exchange: Exchange) -> Exchange {
    let (exchange, action) = exchange.step(ExchangeEvent::Connecting(ConnectEvent::Started));
    assert!(matches!(action, ExchangeAction::Connect));
    let (exchange, action) = exchange.step(ExchangeEvent::Connecting(ConnectEvent::Connected));
    assert!(matches!(action, ExchangeAction::Encode));
    exchange
}

fn sent(exchange: Exchange, task: Vec<u8>) -> (Exchange, ExchangeAction) {
    let (exchange, action) = connected(exchange).step(ExchangeEvent::Encoded(Some(task.clone())));
    match action {
        ExchangeAction::Send(bytes) => assert_eq!(bytes, frame(task)),
        other => panic!("{:?}", other),
    }
    exchange.step(ExchangeEvent::Sent(true))
}

#[test]
fn job_is_sent_and_its_answer_is_received() {
    let (exchange, action) = sent(Exchange::perform(), vec![1, 2, 3]);
    assert!(matches!(action, ExchangeAction::Read));
    let answer = frame(vec![7; 5000]);
    let (exchange, action) = exchange.step(ExchangeEvent::Read(Some(&answer[..4096])));
    assert!(matches!(action, ExchangeAction::Read));
    let (exchange, action) = exchange.step(ExchangeEvent::Read(None));
    assert!(matches!(action, ExchangeAction::Read));
    let (_, action) = exchange.step(ExchangeEvent::Read(Some(&answer[4096..])));
    match action {
        ExchangeAction::Decode(bytes) => assert_eq!(bytes, vec![7; 5000]),
        other => panic!("{:?}", other),
    }
}

#[test]
fn stopping_a_worker_waits_for_no_answer() {
    let (_, action) = sent(Exchange::stop(), vec![1, 0, 0, 0]);
    assert!(matches!(action, ExchangeAction::Finish));
}

#[test]
fn exchange_fails_with_the_error_of_its_stage() {
    let (_, action) = connected(Exchange::perform()).step(ExchangeEvent::Encoded(None));
    assert!(matches!(action, ExchangeAction::Fail(Error::Codec)));

    let (exchange, _) = connected(Exchange::stop()).step(ExchangeEvent::Encoded(Some(vec![1])));
    let (_, action) = exchange.step(ExchangeEvent::Sent(false));
    assert!(matches!(action, ExchangeAction::Fail(Error::Io)));

    let (exchange, _) = sent(Exchange::perform(), vec![1]);
    let (_, action) = exchange.step(ExchangeEvent::Read(Some(&[])));
    assert!(matches!(action, ExchangeAction::Fail(Error::NoResponse)));

    let (exchange, _) = sent(Exchange::perform(), vec![1]);
    let (exchange, action) = exchange.step(ExchangeEvent::Read(Some(&[8, 42, 42])));
    assert!(matches!(action, ExchangeAction::Read));
    let (exchange, action) = exchange.step(ExchangeEvent::Read(None));
    assert!(matches!(action, ExchangeAction::Read));
    let (_, action) = exchange.step(ExchangeEvent::Read(Some(&[])));
    assert!(matches!(action, ExchangeAction::Fail(Error::NoResponse)));
}

/// What comes of an exchange with a worker that sends the chunks and closes the connection.
fn answer(chunks: &[&[u8]]) -> Result<Vec<u8>, Error> {
    let (mut exchange, _) = sent(Exchange::perform(), vec![1]);
    let end: &[u8] = &[];
    for chunk in chunks.iter().chain([&end]) {
        let (next, action) = exchange.step(ExchangeEvent::Read(Some(chunk)));
        match action {
            ExchangeAction::Read => exchange = next,
            ExchangeAction::Decode(payload) => return Ok(payload),
            ExchangeAction::Fail(error) => return Err(error),
            other => panic!("{:?}", other),
        }
    }
    panic!("the stream has ended")
}

#[test]
fn job_outlives_a_worker_that_fails_in_the_middle_of_its_answer() {
    let message = frame(vec![5, 6]);
    let mut manager = Manager::new(&vec![vec![0u16, 1]]);
    let mut tried = Vec::new();
    let result = loop {
        let guard = match manager.try_map::<Vec<u8>>(JobEvent::Started) {
            JobAction::Perform(guard) => guard,
            _ => panic!("a worker was ready"),
        };
        let addr = guard.worker().addr;
        tried.push(addr);
        let outcome = if addr == 1 {
            answer(&[&message[..3], &message[3..4000]])
        } else {
            answer(&[&message[..3], &message[3..]])
        };
        match manager.try_map(JobEvent::Performed(guard, outcome)) {
            JobAction::Return(outcome) => match Manager::<u16>::map(outcome) {
                MapAction::Return(result) => break result,
                MapAction::Reschedule => {}
                MapAction::Panic(error) => panic!("{:?}", error),
            },
            _ => panic!("the try is over"),
        }
    };
    assert_eq!(tried, vec![1, 0]);
    assert_eq!(result, vec![5, 6]);
}

#[test]
fn exchange_with_a_worker_that_cannot_be_reached() {
    let mut exchange = Exchange::perform();
    let mut event = ConnectEvent::Started;
    for millis in [10, 100, 1_000, 10_000, 100_000] {
        let (next, action) = exchange.step(ExchangeEvent::Connecting(event));
        assert!(matches!(action, ExchangeAction::Connect));
        let (next, action) = next.step(ExchangeEvent::Connecting(ConnectEvent::Refused));
        assert!(matches!(action, ExchangeAction::Rest(rest) if rest == millis));
        exchange = next;
        event = ConnectEvent::Rested;
    }
    let (_, action) = exchange.step(ExchangeEvent::Connecting(event));
    assert!(matches!(action, ExchangeAction::Fail(Error::NoResponse)));
}
