use cache_sim::algorithm::CacheAlgorithm;
use cache_sim::fifo::FiFo;
use cache_sim::lfu::LFU;
use cache_sim::lru::LRU;
use cache_sim::record::{FileRecord, SimError};

const A: i32 = 1;
const B: i32 = 2;
const C: i32 = 3;
const D: i32 = 4;

fn unit(label: i32) -> FileRecord {
    FileRecord::new(label, 1)
}

fn run<P: CacheAlgorithm>(p: &mut P, trace: &[FileRecord]) {
    for f in trace {
        assert_eq!(p.simulate(*f), Ok(()));
    }
}

#[test]
fn it_works() {
    assert_eq!(2 + 2, 4);
}

#[test]
fn fifo_evicts_oldest_insertion() {
    let mut p = FiFo::new(3);
    run(&mut p, &[unit(A), unit(B), unit(C), unit(D)]);
    assert!(!p.contains(A));
    assert!(p.contains(B));
    assert!(p.contains(C));
    assert!(p.contains(D));
    assert_eq!(p.stats(), (4, 0));
}

#[test]
fn fifo_hit_does_not_refresh_position() {
    let mut p = FiFo::new(3);
    run(&mut p, &[unit(A), unit(B), unit(C), unit(A), unit(D)]);
    assert!(!p.contains(A));
    assert!(p.contains(B) && p.contains(C) && p.contains(D));
    assert_eq!(p.stats(), (5, 1));
}

#[test]
fn fifo_one_insertion_evicts_several() {
    let mut p = FiFo::new(10);
    run(
        &mut p,
        &[FileRecord::new(A, 3), FileRecord::new(B, 3), FileRecord::new(C, 3), FileRecord::new(D, 9)],
    );
    assert!(!p.contains(A) && !p.contains(B) && !p.contains(C));
    assert!(p.contains(D));
}

#[test]
fn fifo_record_filling_whole_cache_is_admitted() {
    let mut p = FiFo::new(5);
    run(&mut p, &[unit(A), FileRecord::new(B, 5)]);
    assert!(!p.contains(A));
    assert!(p.contains(B));
}

#[test]
fn lfu_keeps_frequent_label() {
    let mut p = LFU::new(2);
    run(&mut p, &[unit(A), unit(B), unit(A)]);
    assert_eq!(p.usage(A), Some((2, 3)));
    assert_eq!(p.usage(B), Some((1, 2)));
    run(&mut p, &[unit(C)]);
    assert!(p.contains(A));
    assert!(!p.contains(B));
    assert!(p.contains(C));
    assert_eq!(p.usage(C), Some((1, 4)));
    assert_eq!(p.stats(), (4, 1));
}

#[test]
fn lfu_ties_go_to_least_recent() {
    let mut p = LFU::new(2);
    run(&mut p, &[unit(A), unit(B), unit(B), unit(A), unit(C)]);
    // A and B both have frequency 2; B was used less recently.
    assert!(p.contains(A));
    assert!(!p.contains(B));
    assert!(p.contains(C));
    assert_eq!(p.stats(), (5, 2));
}

#[test]
fn lfu_one_insertion_evicts_several() {
    let mut p = LFU::new(10);
    run(
        &mut p,
        &[FileRecord::new(A, 4), FileRecord::new(B, 4), FileRecord::new(A, 4), FileRecord::new(C, 8)],
    );
    assert!(!p.contains(A) && !p.contains(B));
    assert!(p.contains(C));
    assert_eq!(p.stats(), (4, 1));
}

#[test]
fn lru_evicts_least_recent() {
    let mut p = LRU::new(2);
    run(&mut p, &[unit(A), unit(B), unit(A), unit(C)]);
    assert!(p.contains(A));
    assert!(!p.contains(B));
    assert!(p.contains(C));
    assert_eq!(p.last_use(A), Some(3));
    assert_eq!(p.stats(), (4, 1));
}

#[test]
fn lru_ignores_frequency() {
    let mut p = LRU::new(2);
    run(&mut p, &[unit(A), unit(A), unit(A), unit(B), unit(C)]);
    assert!(!p.contains(A));
    assert!(p.contains(B) && p.contains(C));
}

#[test]
fn oversized_record_is_refused_without_change() {
    let big = FileRecord::new(A, 6);
    let mut f = FiFo::new(5);
    assert_eq!(f.simulate(big), Err(SimError::OversizedRecord));
    assert_eq!(f.stats(), (0, 0));
    assert!(!f.contains(A));
    let mut l = LFU::new(5);
    assert_eq!(l.simulate(big), Err(SimError::OversizedRecord));
    assert_eq!(l.stats(), (0, 0));
    assert!(!l.contains(A));
    let mut r = LRU::new(5);
    assert_eq!(r.simulate(big), Err(SimError::OversizedRecord));
    assert_eq!(r.stats(), (0, 0));
}

#[test]
fn hits_never_exceed_events() {
    let trace: Vec<FileRecord> =
        (0..200).map(|i| FileRecord::new((i * 7 % 13) as i32, (i % 5) as i64)).collect();
    let mut f = FiFo::new(8);
    let mut l = LFU::new(8);
    let mut r = LRU::new(8);
    for (n, rec) in trace.iter().enumerate() {
        assert_eq!(f.simulate(*rec), Ok(()));
        assert_eq!(l.simulate(*rec), Ok(()));
        assert_eq!(r.simulate(*rec), Ok(()));
        for (ev, hits) in [f.stats(), l.stats(), r.stats()] {
            assert_eq!(ev as usize, n + 1);
            assert!(hits <= ev);
        }
    }
}

#[test]
fn replay_is_deterministic() {
    let trace: Vec<FileRecord> =
        (0..100).map(|i| FileRecord::new((i * 5 % 11) as i32, (i % 4 + 1) as i64)).collect();
    let a = FiFo::replay(9, &trace);
    let b = FiFo::replay(9, &trace);
    assert_eq!(a.stats(), b.stats());
    for label in 0..11 {
        assert_eq!(a.contains(label), b.contains(label));
    }
}

#[test]
fn replay_passes_over_oversized_records() {
    let trace = vec![unit(A), FileRecord::new(B, 50), unit(A)];
    let p = FiFo::replay(3, &trace);
    assert_eq!(p.stats(), (2, 1));
    assert!(!p.contains(B));
}
