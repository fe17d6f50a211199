use usearch::metric::{Cos, Divergence, Hamming, Haversine, L2sq, Pearson, Sorensen, Tanimoto, IP};
use usearch::{HighLevel, MetricKind, MetricType, ScalarKind};

#[test]
fn add_then_get_returns_same_vector_i8() {
    let mut index = HighLevel::<i8, 4, L2sq>::try_default().expect("construction failed");
    let v: Vec<i8> = vec![1, -2, 3, -4];
    index.add(7, &v).expect("add failed");
    let mut buf: Vec<i8> = vec![0; 4];
    let written = index.get(7, &mut buf).expect("get failed");
    assert_eq!(written, 4);
    assert_eq!(buf, v);
}

#[test]
fn get_missing_key_writes_zero() {
    let index = HighLevel::<i8, 3, L2sq>::try_default().expect("construction failed");
    let mut buf: Vec<i8> = vec![9, 9, 9];
    let written = index.get(42, &mut buf).expect("get failed");
    assert_eq!(written, 0);
    assert_eq!(buf, vec![9, 9, 9]);
}

#[test]
fn get_with_short_buffer_writes_prefix() {
    let mut index = HighLevel::<i8, 4, L2sq>::try_default().expect("construction failed");
    index.add(1, &vec![5, 6, 7, 8]).expect("add failed");
    let mut buf: Vec<i8> = vec![0, 0];
    let written = index.get(1, &mut buf).expect("get failed");
    assert_eq!(written, 2);
    assert_eq!(buf, vec![5, 6]);
}

#[test]
fn add_wrong_length_is_rejected() {
    let mut index = HighLevel::<i8, 4, L2sq>::try_default().expect("construction failed");
    assert!(index.add(1, &vec![1, 2, 3]).is_err());
    assert_eq!(index.size(), 0);
}

#[test]
fn add_duplicate_key_is_rejected_without_multi() {
    let mut index = HighLevel::<i8, 2, L2sq>::new(0, 0, 0, false).expect("construction failed");
    index.add(1, &vec![1, 2]).expect("add failed");
    assert!(index.add(1, &vec![3, 4]).is_err());
    assert_eq!(index.size(), 1);
}

#[test]
fn multi_allows_duplicate_keys_and_counts_them() {
    let mut index = HighLevel::<i8, 2, L2sq>::new(0, 0, 0, true).expect("construction failed");
    index.add(1, &vec![1, 2]).expect("add failed");
    index.add(1, &vec![3, 4]).expect("add failed");
    assert_eq!(index.count(1), 2);
    assert_eq!(index.size(), 2);
    let mut buf: Vec<i8> = vec![0; 4];
    let written = index.get(1, &mut buf).expect("get failed");
    assert_eq!(written, 4);
    assert_eq!(buf, vec![1, 2, 3, 4]);
}

#[test]
fn remove_then_get_and_contains_report_absence() {
    let mut index = HighLevel::<i8, 2, L2sq>::try_default().expect("construction failed");
    index.add(1, &vec![1, 2]).expect("add failed");
    index.add(2, &vec![3, 4]).expect("add failed");
    let removed = index.remove(1).expect("remove failed");
    assert_eq!(removed, 1);
    assert!(!index.contains(1));
    let mut buf: Vec<i8> = vec![0; 2];
    assert_eq!(index.get(1, &mut buf).expect("get failed"), 0);
    assert!(index.contains(2));
    assert_eq!(index.size(), 1);
}

#[test]
fn remove_missing_key_removes_nothing() {
    let mut index = HighLevel::<i8, 2, L2sq>::try_default().expect("construction failed");
    index.add(1, &vec![1, 2]).expect("add failed");
    assert_eq!(index.remove(9).expect("remove failed"), 0);
    assert_eq!(index.size(), 1);
}

#[test]
fn rename_moves_the_key() {
    let mut index = HighLevel::<i8, 2, L2sq>::try_default().expect("construction failed");
    index.add(1, &vec![1, 2]).expect("add failed");
    let renamed = index.rename(1, 2).expect("rename failed");
    assert_eq!(renamed, 1);
    assert!(index.contains(2));
    assert!(!index.contains(1));
    let mut buf: Vec<i8> = vec![0; 2];
    assert_eq!(index.get(2, &mut buf).expect("get failed"), 2);
    assert_eq!(buf, vec![1, 2]);
}

#[test]
fn rename_onto_present_key_is_rejected_without_multi() {
    let mut index = HighLevel::<i8, 2, L2sq>::new(0, 0, 0, false).expect("construction failed");
    index.add(1, &vec![1, 2]).expect("add failed");
    index.add(2, &vec![3, 4]).expect("add failed");
    assert!(index.rename(1, 2).is_err());
    assert!(index.contains(1));
    assert!(index.contains(2));
}

#[test]
fn construction_without_kernel_or_custom_function_fails() {
    assert!(HighLevel::<i8, 2, Pearson>::try_default().is_err());
}

#[test]
fn accessors_report_the_bound_options() {
    let mut index = HighLevel::<i8, 3, Cos>::new(16, 128, 64, false).expect("construction failed");
    assert_eq!(index.dimensions(), 3);
    assert_eq!(index.connectivity(), 16);
    assert_eq!(index.expansion_add(), 128);
    assert_eq!(index.expansion_search(), 64);
    index.change_expansion_add(100);
    index.change_expansion_search(50);
    assert_eq!(index.expansion_add(), 100);
    assert_eq!(index.expansion_search(), 50);
}

#[test]
fn reserve_grows_capacity_and_reset_clears() {
    let mut index = HighLevel::<i8, 2, IP>::try_default().expect("construction failed");
    index.reserve(10).expect("reserve failed");
    assert!(index.capacity() >= 10);
    index.add(1, &vec![1, 0]).expect("add failed");
    assert_eq!(index.size(), 1);
    index.reset().expect("reset failed");
    assert_eq!(index.size(), 0);
    assert_eq!(index.capacity(), 0);
    assert!(!index.contains(1));
}

#[test]
fn memory_usage_counts_the_stored_vectors() {
    let mut index = HighLevel::<i8, 2, L2sq>::try_default().expect("construction failed");
    let empty = index.memory_usage();
    assert_eq!(empty, 64);
    index.add(1, &vec![1, 2]).expect("add failed");
    assert_eq!(index.memory_usage(), 64 + 32 + 2 * 8);
}

#[test]
fn change_metric_keeps_the_stored_vectors() {
    let mut index = HighLevel::<i8, 2, Cos>::try_default().expect("construction failed");
    index.add(1, &vec![1, 0]).expect("add failed");
    index.add(2, &vec![0, 1]).expect("add failed");
    let index = index.change_metric::<L2sq>();
    assert_eq!(index.size(), 2);
    assert!(index.contains(1));
    let results = index.search(&vec![1, 0], 2).expect("search failed");
    assert_eq!(results.keys.len(), 2);
    assert_eq!(results.keys[0], 1);
}

#[test]
fn batch_insert_fills_an_empty_index() {
    let mut index = HighLevel::<i8, 2, L2sq>::try_default().expect("construction failed");
    let batch: Vec<(u64, Vec<i8>)> =
        vec![(1, vec![1, 0]), (2, vec![0, 1]), (3, vec![1, 1]), (4, vec![2, 2])];
    index.batch_insert(&batch).expect("batch insert failed");
    assert_eq!(index.size(), 4);
    for (key, v) in &batch {
        assert!(index.contains(*key));
        let mut buf: Vec<i8> = vec![0; 2];
        assert_eq!(index.get(*key, &mut buf).expect("get failed"), 2);
        assert_eq!(&buf, v);
    }
}

#[test]
fn batch_insert_stops_at_the_first_rejection() {
    let mut index = HighLevel::<i8, 2, L2sq>::try_default().expect("construction failed");
    let batch: Vec<(u64, Vec<i8>)> = vec![(1, vec![1, 0]), (2, vec![0, 1]), (1, vec![5, 5])];
    assert!(index.batch_insert(&batch).is_err());
    assert_eq!(index.size(), 2);
    assert!(index.contains(1));
    assert!(index.contains(2));
}

#[test]
fn default_options_mirror_the_type_parameters() {
    let opts = usearch::IndexOptions::default();
    assert_eq!(opts.dimensions, 0);
    assert!(matches!(opts.metric, MetricKind::Cos));
    assert!(matches!(opts.quantization, ScalarKind::F16));
    assert!(!opts.multi);
}

#[test]
fn hamming_counts_differing_positions() {
    let mut index = HighLevel::<i8, 3, Hamming>::try_default().expect("construction failed");
    index.add(1, &vec![1, 2, 3]).expect("add failed");
    let results = index.search(&vec![1, 0, 3], 1).expect("search failed");
    assert_eq!(results.keys, vec![1]);
    assert_eq!(results.distances, vec![1]);
}

#[test]
fn search_after_switching_to_unsupported_metric_is_rejected() {
    let mut index = HighLevel::<i8, 2, Cos>::try_default().expect("construction failed");
    index.add(1, &vec![1, 0]).expect("add failed");
    let index = index.change_metric::<Pearson>();
    // The vectors stay bound, but ranking needs a kernel or a custom
    // function, which this metric supplies neither of.
    assert_eq!(index.size(), 1);
    assert!(index.search(&vec![1, 0], 1).is_err());
}

#[test]
fn metric_types_report_their_kind_codes() {
    assert_eq!(<IP as MetricType>::get_kind(), MetricKind::IP);
    assert_eq!(<L2sq as MetricType>::get_kind(), MetricKind::L2sq);
    assert_eq!(<Cos as MetricType>::get_kind(), MetricKind::Cos);
    assert_eq!(<Pearson as MetricType>::get_kind(), MetricKind::Pearson);
    assert_eq!(<Haversine as MetricType>::get_kind(), MetricKind::Haversine);
    assert_eq!(<Divergence as MetricType>::get_kind(), MetricKind::Divergence);
    assert_eq!(<Hamming as MetricType>::get_kind(), MetricKind::Hamming);
    assert_eq!(<Tanimoto as MetricType>::get_kind(), MetricKind::Tanimoto);
    assert_eq!(<Sorensen as MetricType>::get_kind(), MetricKind::Sorensen);
    assert!(!<Cos as MetricType>::custom_metric());
}

#[test]
fn batch_insert_reserves_for_size_plus_batch() {
    let mut index = HighLevel::<i8, 2, L2sq>::try_default().expect("construction failed");
    index.add(9, &vec![7, 7]).expect("add failed");
    let batch: Vec<(u64, Vec<i8>)> = vec![(1, vec![1, 0]), (2, vec![0, 1]), (3, vec![1, 1])];
    index.batch_insert(&batch).expect("batch insert failed");
    assert_eq!(index.size(), 4);
    assert!(index.capacity() >= 4);
}
