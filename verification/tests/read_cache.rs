use pg_relay::error::Error;
use pg_relay::keys::ComputeKey;
use pg_relay::read_cache::{CacheOutcome, ReadCache, Step};
use std::any::Any;
use std::future::Future;
use std::sync::atomic::{AtomicU32, Ordering};
use std::sync::Arc;
use std::time::Duration;
use tokio::sync::{Mutex, Notify};

type State = dyn Any + Send + Sync;

struct Shared {
    cache: Mutex<ReadCache<State>>,
    changed: Notify,
}

fn shared() -> Arc<Shared> {
    Arc::new(Shared { cache: Mutex::new(ReadCache::new()), changed: Notify::new() })
}

fn runtime() -> tokio::runtime::Runtime {
    tokio::runtime::Builder::new_multi_thread().worker_threads(4).enable_all().build().unwrap()
}

fn key_of(name: &[u8]) -> ComputeKey {
    ComputeKey::from_parts(&[name])
}

async fn get_or_compute<F, Fut>(
    shared: &Shared,
    key: &ComputeKey,
    f: F,
) -> Result<(Arc<State>, CacheOutcome), Error>
where
    F: FnOnce() -> Fut,
    Fut: Future<Output = Result<Arc<State>, Error>>,
{
    let ticket = shared.cache.lock().await.begin(key);
    let mut compute = Some(f);
    loop {
        let mut changed = Box::pin(shared.changed.notified());
        changed.as_mut().enable();
        let step = shared.cache.lock().await.step(&ticket);
        match step {
            Step::Run => {
                let run = compute.take().unwrap();
                let result = run().await;
                shared.cache.lock().await.complete(&ticket, result);
                shared.changed.notify_waiters();
            }
            Step::Wait => changed.await,
            Step::Ready => break,
        }
    }
    shared.cache.lock().await.finish(ticket)
}

#[test]
fn coalesces_concurrent_calls() {
    runtime().block_on(async {
        let cache = shared();
        let counter = Arc::new(AtomicU32::new(0));
        let mut handles = Vec::new();
        for _ in 0..10 {
            let cache = cache.clone();
            let counter = counter.clone();
            handles.push(tokio::spawn(async move {
                let key = key_of(b"client_42");
                get_or_compute(&cache, &key, || async move {
                    tokio::time::sleep(Duration::from_millis(50)).await;
                    counter.fetch_add(1, Ordering::SeqCst);
                    let state: Arc<State> = Arc::new(42u32);
                    Ok(state)
                })
                .await
                .unwrap()
            }));
        }
        let mut hits = 0;
        let mut misses = 0;
        let mut coalesced = 0;
        for h in handles {
            let (state, outcome) = h.await.unwrap();
            assert_eq!(*state.downcast_ref::<u32>().unwrap(), 42);
            match outcome {
                CacheOutcome::Hit => hits += 1,
                CacheOutcome::Miss => misses += 1,
                CacheOutcome::Coalesced => coalesced += 1,
            }
        }
        assert_eq!(counter.load(Ordering::SeqCst), 1);
        assert_eq!(misses, 1);
        assert_eq!(hits + coalesced, 9);
    });
}

#[test]
fn failed_compute_does_not_stick() {
    let mut cache: ReadCache<State> = ReadCache::new();
    let key = key_of(b"client_99");

    let r1 = cache.get_or_compute(&key, || {
        Err::<Arc<State>, _>(Error::Compute("boom".to_string()))
    });
    assert!(r1.is_err());
    assert_eq!(r1.err().unwrap().message(), "compute error: compute error: boom");

    let r2 = cache.get_or_compute(&key, || Ok(Arc::new("ok".to_string()) as Arc<State>));
    assert!(r2.is_ok());
    assert_eq!(r2.unwrap().1, CacheOutcome::Miss);
}

#[test]
fn a_kept_value_is_not_computed_again() {
    let mut cache: ReadCache<u32> = ReadCache::new();
    let key = key_of(b"k");
    let (v, outcome) = cache.get_or_compute(&key, || Ok(Arc::new(7))).unwrap();
    assert_eq!((*v, outcome), (7, CacheOutcome::Miss));
    for _ in 0..3 {
        let r = cache.get_or_compute(&key, || panic!("the value is kept"));
        let (v, outcome) = r.unwrap();
        assert_eq!((*v, outcome), (7, CacheOutcome::Hit));
    }
    assert_eq!(cache.len(), 1);
}

#[test]
fn each_call_is_told_what_it_has_to_do() {
    let mut cache: ReadCache<u32> = ReadCache::default();
    let key = key_of(b"k");
    assert!(cache.is_empty());

    let first = cache.begin(&key);
    let second = cache.begin(&key);
    assert_eq!(cache.len(), 1);
    assert_eq!(cache.step(&first), Step::Run);
    assert_eq!(cache.step(&second), Step::Wait);

    let third = cache.begin(&key);
    assert_eq!(cache.step(&third), Step::Wait);

    cache.complete(&first, Ok(Arc::new(7)));
    assert_eq!(cache.step(&second), Step::Ready);
    let fourth = cache.begin(&key);
    assert_eq!(cache.step(&fourth), Step::Ready);

    assert_eq!(cache.finish(second).unwrap(), (Arc::new(7), CacheOutcome::Coalesced));
    assert_eq!(cache.finish(first).unwrap(), (Arc::new(7), CacheOutcome::Miss));
    assert_eq!(cache.finish(fourth).unwrap(), (Arc::new(7), CacheOutcome::Hit));
    assert_eq!(cache.finish(third).unwrap(), (Arc::new(7), CacheOutcome::Coalesced));
    assert_eq!(cache.len(), 1);
}

#[test]
fn an_abandoned_run_is_taken_over() {
    let mut cache: ReadCache<u32> = ReadCache::new();
    let key = key_of(b"k");
    let first = cache.begin(&key);
    let second = cache.begin(&key);
    assert_eq!(cache.step(&first), Step::Run);
    assert_eq!(cache.step(&second), Step::Wait);
    cache.abandon(first);
    assert_eq!(cache.step(&second), Step::Run);
    cache.complete(&second, Ok(Arc::new(1)));
    assert_eq!(cache.finish(second).unwrap(), (Arc::new(1), CacheOutcome::Miss));
}

#[test]
fn an_abandoned_key_stays_counted() {
    let mut cache: ReadCache<u32> = ReadCache::new();
    let key = key_of(b"k");
    let only = cache.begin(&key);
    assert_eq!(cache.step(&only), Step::Run);
    cache.abandon(only);
    assert_eq!(cache.len(), 1);
    let next = cache.begin(&key);
    assert_eq!(cache.step(&next), Step::Run);
    cache.abandon(next);
}

#[test]
fn all_waiters_share_a_failure_and_the_next_call_runs_anew() {
    let mut cache: ReadCache<u32> = ReadCache::new();
    let key = key_of(b"k");
    let first = cache.begin(&key);
    let second = cache.begin(&key);
    assert_eq!(cache.step(&first), Step::Run);
    cache.complete(&first, Err(Error::Storage("down".to_string())));
    assert!(cache.is_empty());

    let third = cache.begin(&key);
    assert_eq!(cache.step(&third), Step::Run);
    assert_eq!(cache.step(&second), Step::Ready);
    let e1 = cache.finish(first).err().unwrap();
    let e2 = cache.finish(second).err().unwrap();
    assert!(matches!(&e1, Error::Compute(m) if m == "storage error: down"));
    assert!(matches!(&e2, Error::Compute(m) if m == "storage error: down"));

    // The failed calls do not disturb the new one.
    let fourth = cache.begin(&key);
    assert_eq!(cache.step(&fourth), Step::Wait);
    cache.complete(&third, Ok(Arc::new(3)));
    assert_eq!(cache.finish(fourth).unwrap(), (Arc::new(3), CacheOutcome::Coalesced));
    assert_eq!(cache.finish(third).unwrap(), (Arc::new(3), CacheOutcome::Miss));
}

#[test]
fn invalidation_hides_the_value_but_not_from_open_calls() {
    let mut cache: ReadCache<u32> = ReadCache::new();
    let key = key_of(b"k");
    let open = cache.begin(&key);
    assert_eq!(cache.step(&open), Step::Run);
    cache.invalidate(&key);
    assert!(cache.is_empty());

    let fresh = cache.begin(&key);
    assert_eq!(cache.step(&fresh), Step::Run);
    cache.complete(&open, Ok(Arc::new(1)));
    cache.complete(&fresh, Ok(Arc::new(2)));
    assert_eq!(cache.finish(open).unwrap().0, Arc::new(1));
    assert_eq!(cache.finish(fresh).unwrap().0, Arc::new(2));

    let later = cache.get_or_compute(&key, || Err(Error::IdempotentNoop)).unwrap();
    assert_eq!(later, (Arc::new(2), CacheOutcome::Hit));
    cache.invalidate(&key_of(b"another"));
    assert_eq!(cache.len(), 1);
    cache.invalidate(&key);
    assert_eq!(cache.len(), 0);
}

#[test]
fn keys_are_independent() {
    let mut cache: ReadCache<u32> = ReadCache::new();
    let a = key_of(b"a");
    let b = key_of(b"b");
    let r = cache.get_or_compute(&a, || Ok(Arc::new(1)));
    assert_eq!(r.unwrap(), (Arc::new(1), CacheOutcome::Miss));
    let r = cache.get_or_compute(&b, || Ok(Arc::new(2)));
    assert_eq!(r.unwrap(), (Arc::new(2), CacheOutcome::Miss));
    assert_eq!(cache.len(), 2);
    cache.invalidate(&a);
    assert_eq!(cache.len(), 1);
    let r = cache.get_or_compute(&b, || Ok(Arc::new(9)));
    assert_eq!(r.unwrap(), (Arc::new(2), CacheOutcome::Hit));
    let r = cache.get_or_compute(&a, || Err(Error::Protocol("bad".to_string())));
    assert_eq!(r.err().unwrap().code(), "compute_error");
    assert_eq!(cache.len(), 1);
}

#[test]
fn many_keys_come_and_go() {
    let mut cache: ReadCache<u64> = ReadCache::new();
    for round in 0..3u64 {
        for n in 0..200u64 {
            let key = key_of(&n.to_le_bytes());
            let (v, outcome) = cache.get_or_compute(&key, || Ok(Arc::new(round * 1000 + n))).unwrap();
            assert_eq!((*v, outcome), (round * 1000 + n, CacheOutcome::Miss));
        }
        assert_eq!(cache.len(), 200);
        for n in 0..200u64 {
            cache.invalidate(&key_of(&n.to_le_bytes()));
        }
        assert!(cache.is_empty());
    }
}
