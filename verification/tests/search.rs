use usearch::metric::{Cos, L2sq, IP};
use usearch::{HighLevel, Matches, MetricKind, ResultElement, F16};

fn f16_vec(bits: &[u16]) -> Vec<F16> {
    bits.iter().map(|b| F16 { bits: *b }).collect()
}

const F16_ZERO: u16 = 0x0000;
const F16_HALF: u16 = 0x3800;
const F16_ONE: u16 = 0x3C00;

#[test]
fn cosine_tie_reports_both_keys_with_equal_distance() {
    let mut index = HighLevel::<F16, 4, Cos>::try_default().expect("construction failed");
    index
        .add(1, &f16_vec(&[F16_ZERO, F16_ONE, F16_ZERO, F16_ONE]))
        .expect("add failed");
    index
        .add(2, &f16_vec(&[F16_ONE, F16_ZERO, F16_ONE, F16_ZERO]))
        .expect("add failed");
    let query = f16_vec(&[F16_HALF, F16_HALF, F16_HALF, F16_HALF]);
    let results = index.search(&query, 2).expect("search failed");
    assert_eq!(results.keys.len(), 2);
    assert_eq!(results.distances.len(), 2);
    let mut keys = results.keys.clone();
    keys.sort();
    assert_eq!(keys, vec![1, 2]);
    // The two vectors lie symmetrically around the query, so the tie is
    // exact; the order of the two keys is unspecified.
    assert_eq!(results.distances[0], results.distances[1]);
    // One minus the cosine of the angle between either vector and the
    // query, in units of 2^32.
    assert_eq!(results.distances[0], 1257937304);
}

#[test]
fn search_returns_at_most_count_sorted_without_duplicates() {
    let mut index = HighLevel::<i8, 2, L2sq>::try_default().expect("construction failed");
    index.add(1, &vec![0, 0]).expect("add failed");
    index.add(2, &vec![10, 10]).expect("add failed");
    index.add(3, &vec![1, 1]).expect("add failed");
    index.add(4, &vec![5, 5]).expect("add failed");
    let results = index.search(&vec![0, 0], 3).expect("search failed");
    assert_eq!(results.keys.len(), 3);
    for w in results.distances.windows(2) {
        assert!(w[0] <= w[1]);
    }
    let mut keys = results.keys.clone();
    keys.sort();
    keys.dedup();
    assert_eq!(keys.len(), 3);
    assert_eq!(results.keys[0], 1);
    assert_eq!(results.keys[1], 3);
    assert_eq!(results.keys[2], 4);
}

#[test]
fn l2sq_distance_is_the_scaled_squared_difference() {
    let mut index = HighLevel::<i8, 2, L2sq>::try_default().expect("construction failed");
    index.add(1, &vec![1, 3]).expect("add failed");
    let results = index.search(&vec![1, 2], 1).expect("search failed");
    // One scalar differs by 1, which the fixed-point scale turns into
    // 65536; its square is 2^32.
    assert_eq!(results.distances, vec![4294967296]);
}

#[test]
fn ip_distance_of_matching_unit_vector_is_zero() {
    let mut index = HighLevel::<i8, 2, IP>::try_default().expect("construction failed");
    index.add(1, &vec![1, 0]).expect("add failed");
    let results = index.search(&vec![1, 0], 1).expect("search failed");
    assert_eq!(results.distances, vec![0]);
}

#[test]
fn search_with_wrong_query_length_is_rejected() {
    let index = HighLevel::<i8, 3, L2sq>::try_default().expect("construction failed");
    assert!(index.search(&vec![1, 2], 1).is_err());
}

#[test]
fn search_beyond_size_returns_everything() {
    let mut index = HighLevel::<i8, 2, L2sq>::try_default().expect("construction failed");
    index.add(1, &vec![1, 1]).expect("add failed");
    let results = index.search(&vec![0, 0], 10).expect("search failed");
    assert_eq!(results.keys.len(), 1);
}

#[test]
fn filtered_search_screens_keys() {
    let mut index = HighLevel::<i8, 2, L2sq>::try_default().expect("construction failed");
    index.add(1, &vec![0, 0]).expect("add failed");
    index.add(2, &vec![1, 1]).expect("add failed");
    index.add(3, &vec![2, 2]).expect("add failed");
    let results = index
        .filtered_search(&vec![0, 0], 3, |key| key % 2 == 1)
        .expect("search failed");
    assert_eq!(results.keys, vec![1, 3]);
}

#[test]
fn filtered_search_respects_count() {
    let mut index = HighLevel::<i8, 2, L2sq>::try_default().expect("construction failed");
    index.add(1, &vec![0, 0]).expect("add failed");
    index.add(2, &vec![1, 1]).expect("add failed");
    index.add(3, &vec![2, 2]).expect("add failed");
    let results = index
        .filtered_search(&vec![0, 0], 1, |_key| true)
        .expect("search failed");
    assert_eq!(results.keys, vec![1]);
}

struct Manhattan;

impl usearch::MetricType for Manhattan {
    fn get_kind() -> MetricKind {
        MetricKind::Unknown
    }

    fn custom_metric() -> bool {
        true
    }

    fn custom_distance(a: &Vec<i64>, b: &Vec<i64>) -> i64 {
        let mut total: i64 = 0;
        for i in 0..a.len() {
            total += (a[i] - b[i]).abs();
        }
        total
    }
}

#[test]
fn custom_metric_ranks_by_its_own_distance() {
    let mut index = HighLevel::<i8, 2, Manhattan>::try_default().expect("construction failed");
    index.add(1, &vec![0, 0]).expect("add failed");
    index.add(2, &vec![3, 3]).expect("add failed");
    let results = index.search(&vec![1, 1], 2).expect("search failed");
    assert_eq!(results.keys, vec![1, 2]);
    // Manhattan distances in fixed-point units: 2 * 65536 and 4 * 65536.
    assert_eq!(results.distances, vec![131072, 262144]);
}

#[test]
fn matches_result_pairs_keys_with_distances() {
    let m = Matches { keys: vec![5, 6], distances: vec![10, 20] };
    let elements = m.result();
    assert_eq!(elements.len(), 2);
    assert_eq!(elements[0], ResultElement { distance: 10, key: 5 });
    assert_eq!(elements[1], ResultElement { distance: 20, key: 6 });
}

#[test]
fn all_accepting_filter_matches_plain_search() {
    let mut index = HighLevel::<i8, 2, L2sq>::try_default().expect("construction failed");
    index.add(1, &vec![0, 0]).expect("add failed");
    index.add(2, &vec![1, 1]).expect("add failed");
    index.add(3, &vec![2, 2]).expect("add failed");
    let plain = index.search(&vec![0, 0], 5).expect("search failed");
    let filtered = index
        .filtered_search(&vec![0, 0], 5, |_key| true)
        .expect("search failed");
    assert_eq!(plain.keys, filtered.keys);
    assert_eq!(plain.distances, filtered.distances);
}

#[test]
fn multi_search_reports_a_key_at_most_its_stored_count() {
    let mut index = HighLevel::<i8, 2, L2sq>::new(0, 0, 0, true).expect("construction failed");
    index.add(1, &vec![0, 0]).expect("add failed");
    index.add(1, &vec![1, 1]).expect("add failed");
    index.add(2, &vec![2, 2]).expect("add failed");
    let results = index.search(&vec![0, 0], 5).expect("search failed");
    assert_eq!(results.keys.len(), 3);
    assert_eq!(results.keys.iter().filter(|k| **k == 1).count(), 2);
    assert_eq!(results.keys.iter().filter(|k| **k == 2).count(), 1);
}
