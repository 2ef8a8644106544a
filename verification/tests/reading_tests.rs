use rmd5::cache::{advises_sequential, direct_buffer_len, drops_pages, round_up, CacheMode};
use rmd5::file_hash::{read_buffer_len, read_plan, ChunkedHash, FeedStep, ReadPlan};
use rmd5::jobs::{worker_count, ResultSlots};
use rmd5::md5::Md5;

#[test]
fn buffer_sizes() {
    assert_eq!(read_buffer_len(1), 8192);
    assert_eq!(read_buffer_len(8192), 8192);
    assert_eq!(read_buffer_len(16777216), 16777216);
    assert_eq!(round_up(0, 4096), 0);
    assert_eq!(round_up(1, 4096), 4096);
    assert_eq!(round_up(4096, 4096), 4096);
    assert_eq!(round_up(4097, 4096), 8192);
    assert_eq!(round_up(10, 3), 12);
    assert_eq!(direct_buffer_len(1), 4096);
    assert_eq!(direct_buffer_len(16777216), 16777216);
    assert_eq!(direct_buffer_len(10000), 12288);
}

#[test]
fn cache_mode_decisions() {
    assert!(!advises_sequential(CacheMode::KeepCache));
    assert!(advises_sequential(CacheMode::DropCache));
    assert!(advises_sequential(CacheMode::Direct));
    assert!(drops_pages(CacheMode::DropCache));
    assert!(!drops_pages(CacheMode::KeepCache));
    assert!(!drops_pages(CacheMode::Direct));
}

#[test]
fn read_plans() {
    assert_eq!(read_plan(true, CacheMode::Direct), ReadPlan::Stdin);
    assert_eq!(read_plan(true, CacheMode::KeepCache), ReadPlan::Stdin);
    assert_eq!(read_plan(false, CacheMode::Direct), ReadPlan::Direct);
    assert_eq!(read_plan(false, CacheMode::KeepCache), ReadPlan::Buffered);
    assert_eq!(read_plan(false, CacheMode::DropCache), ReadPlan::Buffered);
}

#[test]
fn chunked_hash_equals_whole_hash() {
    let data = b"abcdefghijklmnopqrstuvwxyz";
    let mut h = ChunkedHash::new();
    let mut buf = [0u8; 10];
    let mut pos = 0;
    let mut offsets = Vec::new();
    loop {
        let n = (data.len() - pos).min(buf.len());
        buf[..n].copy_from_slice(&data[pos..pos + n]);
        match h.feed(&buf, n) {
            FeedStep::End => break,
            FeedStep::Absorbed { offset, len } => {
                offsets.push(offset);
                pos += len;
            }
        }
    }
    assert_eq!(offsets, vec![0, 10, 20]);
    let mut whole = Md5::new();
    whole.update(data);
    assert_eq!(h.finish(), whole.finalize());
}

#[test]
fn workers_between_one_and_tasks() {
    assert_eq!(worker_count(8, 3), 3);
    assert_eq!(worker_count(2, 3), 2);
    assert_eq!(worker_count(8, 0), 1);
    assert_eq!(worker_count(0, 5), 1);
}

#[test]
fn results_come_out_in_task_order() {
    let mut slots = ResultSlots::new(4);
    assert_eq!(slots.len(), 4);
    for (i, v) in [(2usize, "c"), (0, "a"), (3, "d")] {
        slots.put(i, v);
        assert!(!slots.is_complete());
    }
    slots.put(1, "b");
    assert!(slots.is_complete());
    assert_eq!(slots.into_results(), vec!["a", "b", "c", "d"]);
}
