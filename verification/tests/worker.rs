use crawler::worker::{WorkerMaster, WorkerMessage};

fn expect_work(msg: Option<WorkerMessage>) -> String {
    match msg {
        Some(WorkerMessage::Work(u)) => u,
        Some(WorkerMessage::Stop) => panic!("expected a work item, got the stop signal"),
        None => panic!("expected a work item, got nothing"),
    }
}

// Dedup correctness: duplicate submissions interleaved with fresh ones lead
// to exactly one work item per distinct address, in first-submission order.
#[test]
fn dedup_submissions() {
    let mut master = WorkerMaster::new(2);
    master.submit_url("http://a.org/".to_string());
    master.submit_url("http://b.org/".to_string());
    master.submit_url("http://a.org/".to_string());
    master.submit_url("http://c.org/".to_string());
    master.submit_url("http://b.org/".to_string());
    assert_eq!("http://a.org/", expect_work(master.next_message()));
    assert_eq!("http://b.org/", expect_work(master.next_message()));
    master.process_fetched("http://a.org/".to_string(), None);
    assert_eq!("http://c.org/", expect_work(master.next_message()));
    master.process_fetched("http://b.org/".to_string(), None);
    assert!(master.next_message().is_none());
}

// Idempotence: the same address submitted twice before it is dequeued results
// in exactly one queued item.
#[test]
fn idempotent_submit() {
    let mut master = WorkerMaster::new(1);
    master.submit_url("http://a.org/".to_string());
    master.submit_url("http://a.org/".to_string());
    assert_eq!("http://a.org/", expect_work(master.next_message()));
    master.process_fetched("http://a.org/".to_string(), None);
    assert!(master.next_message().is_none());
}

// Fetch failure isolation: a failed fetch for one address does not keep a
// later, independently submitted address from being handed out.
#[test]
fn failure_is_isolated() {
    let mut master = WorkerMaster::new(1);
    master.submit_url("http://down.org/".to_string());
    master.submit_url("http://up.org/".to_string());
    assert_eq!("http://down.org/", expect_work(master.next_message()));
    master.process_fetched("http://down.org/".to_string(), None);
    assert_eq!("http://up.org/", expect_work(master.next_message()));
    master.process_fetched("http://up.org/".to_string(), None);
    assert!(master.next_message().is_none());
}

// A fetched page feeds the crawl: its links are extracted, resolved against
// the fetched address, deduplicated against the registry and enqueued.
#[test]
fn fetched_page_feeds_queue() {
    let seed = "http://something.com/test";
    let mut master = WorkerMaster::new(1);
    master.submit_url(seed.to_string());
    assert_eq!(seed, expect_work(master.next_message()));
    let body = r#"<a href="http://something.com/test">self</a><a href="../x.html">x</a>"#;
    master.process_fetched(seed.to_string(), Some(body));
    assert_eq!("http://something.com/x.html", expect_work(master.next_message()));
    master.process_fetched("http://something.com/x.html".to_string(), None);
    assert!(master.next_message().is_none());
}

// Shutdown completeness: after shutdown every worker that asks is told to
// stop, and no work item is handed out any more, not even one submitted
// after the stop.
#[test]
fn shutdown_stops_workers() {
    let mut master = WorkerMaster::new(2);
    master.submit_url("http://pending.org/".to_string());
    master.shutdown();
    master.submit_url("http://late.org/".to_string());
    assert!(matches!(master.next_message(), Some(WorkerMessage::Stop)));
    assert!(matches!(master.next_message(), Some(WorkerMessage::Stop)));
}
