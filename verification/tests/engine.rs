use std::sync::Arc;

use pagestore::addr::encode_page_addr;
use pagestore::addr::split_page_addr;
use pagestore::merge::MergingIterBuilder;
use pagestore::merge::SortedPageIter;
use pagestore::merge::SortedPageKey;
use pagestore::merge::SortedPageValue;
use pagestore::page::Index;
use pagestore::page::Key;
use pagestore::page::MergingInnerPageIter;
use pagestore::page::MergingLeafPageIter;
use pagestore::page::MergingPageIter;
use pagestore::page::Value;
use pagestore::page_file::FileInfo;
use pagestore::page_file::FileMeta;
use pagestore::page_file::PageHandle;
use pagestore::timer::Timer;

fn build_merging_iter<K: SortedPageKey, V: SortedPageValue>(
    entries: Vec<(K, V)>,
    range_limit: Option<Vec<u8>>,
) -> MergingPageIter<K, V> {
    let mut builder = MergingIterBuilder::new();
    builder.add(SortedPageIter::new(entries));
    MergingPageIter::new(builder.build(), range_limit)
}

#[test]
fn merging_page_iter() {
    let data = vec![
        (vec![1u8], Index::new(1, 0)),
        (vec![3u8], Index::new(3, 0)),
        (vec![5u8], Index::new(5, 0)),
    ];
    {
        let mut iter = build_merging_iter(data.clone(), None);
        for b in data.clone() {
            let a = iter.next().unwrap();
            assert_eq!(a, b);
        }
    }
    {
        let mut iter = build_merging_iter(data.clone(), Some(vec![3u8]));
        assert_eq!(iter.next(), Some(data[0].clone()));
        assert_eq!(iter.next(), None);
    }
}

fn leaf_data() -> Vec<(Key, Value)> {
    vec![
        (Key::new(vec![1], 3), Value::Put(vec![1])),
        (Key::new(vec![1], 2), Value::Put(vec![1])),
        (Key::new(vec![1], 1), Value::Put(vec![1])),
        (Key::new(vec![3], 3), Value::Put(vec![3])),
        (Key::new(vec![3], 1), Value::Delete),
        (Key::new(vec![5], 2), Value::Delete),
    ]
}

#[test]
fn merging_leaf_page_iter() {
    let data = leaf_data();
    let pick = |ix: &[usize]| -> Vec<(Key, Value)> {
        ix.iter().map(|&i| data[i].clone()).collect()
    };
    let lsn_expect = [
        (0u64, data.clone()),
        (1, pick(&[0, 1, 2, 3, 5])),
        (2, pick(&[0, 1, 3])),
        (3, pick(&[0, 3])),
        (4, pick(&[0, 3])),
    ];
    for (lsn, expect) in lsn_expect {
        let merging_iter = build_merging_iter(data.clone(), None);
        let mut iter = MergingLeafPageIter::new(merging_iter, lsn);
        for b in expect {
            let a = iter.next().unwrap();
            assert_eq!(a, b);
        }
    }
}

#[test]
fn merging_inner_page_iter() {
    let data = [
        (vec![1u8], Index::new(1, 1)),
        (vec![3u8], Index::new(3, 3)),
        (vec![3u8], Index::new(3, 1)),
        (vec![5u8], Index::null()),
        (vec![5u8], Index::new(5, 5)),
    ];
    let merging_iter = build_merging_iter(data.to_vec(), None);

    let mut iter = MergingInnerPageIter::new(merging_iter);
    for _ in 0..2 {
        assert_eq!(iter.next(), Some(data[0].clone()));
        assert_eq!(iter.next(), Some(data[1].clone()));
        assert_eq!(iter.next(), Some(data[4].clone()));
        assert_eq!(iter.next(), None);
        iter.rewind();
    }
}

#[test]
fn page_addr_roundtrip_examples() {
    for (file_id, index) in [(0u32, 0u32), (1, 0), (7, 9), (u32::MAX, u32::MAX)] {
        let addr = encode_page_addr(file_id, index);
        assert_eq!(split_page_addr(addr), (file_id, index));
    }
    assert_eq!(encode_page_addr(1, 2), 0x1_0000_0002);
    assert_eq!(split_page_addr(0x2_0000_0005), (2, 5));
}

#[test]
fn merging_page_iter_merges_and_rewinds() {
    // Two pages: the first added (the newer delta) wins key ties.
    let newer = vec![
        (vec![2u8], Index::new(20, 1)),
        (vec![4u8], Index::new(40, 1)),
    ];
    let older = vec![
        (vec![2u8], Index::new(21, 0)),
        (vec![3u8], Index::new(30, 0)),
    ];
    let mut builder = MergingIterBuilder::new();
    builder.add(SortedPageIter::new(newer));
    builder.add(SortedPageIter::new(older));
    let mut iter = MergingPageIter::new(builder.build(), None);
    for _ in 0..2 {
        assert_eq!(iter.next(), Some((vec![2u8], Index::new(20, 1))));
        assert_eq!(iter.next(), Some((vec![2u8], Index::new(21, 0))));
        assert_eq!(iter.next(), Some((vec![3u8], Index::new(30, 0))));
        assert_eq!(iter.next(), Some((vec![4u8], Index::new(40, 1))));
        assert_eq!(iter.next(), None);
        iter.rewind();
    }
}

#[test]
fn merging_leaf_page_iter_rewind_replays() {
    let data = leaf_data();
    let merging_iter = build_merging_iter(data.clone(), None);
    let mut iter = MergingLeafPageIter::new(merging_iter, 1);
    let mut first = Vec::new();
    while let Some(e) = iter.next() {
        first.push(e);
    }
    iter.rewind();
    let mut second = Vec::new();
    while let Some(e) = iter.next() {
        second.push(e);
    }
    assert_eq!(first, second);
    assert_eq!(first.len(), 5);
}

fn sample_file() -> FileInfo {
    // Three pages at offsets 0, 100, 250 in a 400-byte file: sizes 100, 150, 150.
    let meta = FileMeta::new(1, 400, vec![0, 1, 2], vec![0, 100, 250]);
    let mut active = roaring::RoaringBitmap::new();
    active.insert(0);
    active.insert(1);
    active.insert(2);
    FileInfo::new(active, 400, Arc::new(meta))
}

#[test]
fn file_meta_sizes() {
    let meta = FileMeta::new(1, 400, vec![0, 1, 2], vec![0, 100, 250]);
    assert_eq!(meta.get_file_id(), 1);
    assert_eq!(meta.get_page_size(encode_page_addr(1, 0)), 100);
    assert_eq!(meta.get_page_size(encode_page_addr(1, 1)), 150);
    assert_eq!(meta.get_page_size(encode_page_addr(1, 2)), 150);
    assert_eq!(meta.total_page_size(), 400);
}

#[test]
fn file_info_accounting() {
    let mut info = sample_file();
    assert_eq!(info.get_file_id(), 1);
    assert_eq!(info.effective_size(), 400);
    let rate = info.decline_rate();
    assert_eq!((rate.declined_size, rate.total_size), (0, 400));

    let addr = encode_page_addr(1, 1);
    assert_eq!(
        info.get_page_handle(addr),
        Some(PageHandle { offset: 100, size: 150 })
    );

    info.deactivate_page(addr);
    assert_eq!(info.effective_size(), 250);
    assert_eq!(info.get_page_handle(addr), None);

    // A repeated deactivation never double-counts.
    info.deactivate_page(addr);
    assert_eq!(info.effective_size(), 250);

    let rate = info.decline_rate();
    assert_eq!((rate.declined_size, rate.total_size), (150, 400));

    info.deactivate_page(encode_page_addr(1, 0));
    info.deactivate_page(encode_page_addr(1, 2));
    assert_eq!(info.effective_size(), 0);
    let rate = info.decline_rate();
    assert_eq!((rate.declined_size, rate.total_size), (400, 400));
}

#[test]
fn merging_page_iter_empty() {
    let mut iter = build_merging_iter(Vec::<(Vec<u8>, Index)>::new(), None);
    assert_eq!(iter.next(), None);
    iter.rewind();
    assert_eq!(iter.next(), None);
}

#[test]
fn merging_page_iter_orders_by_prefix() {
    // A key is lexicographically before any of its proper extensions.
    let newer = vec![(vec![1u8, 0u8], Index::new(10, 0))];
    let older = vec![(vec![1u8], Index::new(1, 0))];
    let mut builder = MergingIterBuilder::new();
    builder.add(SortedPageIter::new(newer));
    builder.add(SortedPageIter::new(older));
    let mut iter = MergingPageIter::new(builder.build(), None);
    assert_eq!(iter.next(), Some((vec![1u8], Index::new(1, 0))));
    assert_eq!(iter.next(), Some((vec![1u8, 0u8], Index::new(10, 0))));
    assert_eq!(iter.next(), None);
}

#[test]
fn merging_leaf_page_iter_with_range_limit() {
    let data = leaf_data();
    let merging_iter = build_merging_iter(data.clone(), Some(vec![3u8]));
    let mut iter = MergingLeafPageIter::new(merging_iter, 0);
    assert_eq!(iter.next(), Some(data[0].clone()));
    assert_eq!(iter.next(), Some(data[1].clone()));
    assert_eq!(iter.next(), Some(data[2].clone()));
    assert_eq!(iter.next(), None);
}

#[test]
fn page_handle_of_unknown_index() {
    let info = sample_file();
    assert_eq!(info.get_page_handle(encode_page_addr(1, 9)), None);
}

#[test]
fn timer_rounds() {
    let mut timer = Timer::default();
    let a = timer.sleep(0, 100);
    let b = timer.sleep(0, 50);
    assert_eq!((a, b), (0, 1));
    assert!(timer.poll_elapsed(a));
    assert!(timer.poll_elapsed(b));

    assert_eq!(timer.next_round(60), vec![b]);
    assert!(timer.poll_elapsed(a));
    assert!(!timer.poll_elapsed(b));

    assert_eq!(timer.next_round(100), vec![a]);
    assert!(!timer.poll_elapsed(a));
    assert_eq!(timer.next_round(200), Vec::<u64>::new());

    let c = timer.sleep(200, 10);
    assert_eq!(c, 2);
    assert_eq!(timer.next_round(210), vec![c]);
}
