use usearch::metric::{Cos, L2sq};
use usearch::{HighLevel, F16};

fn f16_vec(bits: &[u16]) -> Vec<F16> {
    bits.iter().map(|b| F16 { bits: *b }).collect()
}

const F16_ZERO: u16 = 0x0000;
const F16_HALF: u16 = 0x3800;
const F16_ONE: u16 = 0x3C00;

#[test]
fn save_and_load_reproduce_search_results() {
    let mut index = HighLevel::<F16, 4, Cos>::try_default().expect("construction failed");
    index
        .add(1, &f16_vec(&[F16_ZERO, F16_ONE, F16_ZERO, F16_ONE]))
        .expect("add failed");
    index
        .add(2, &f16_vec(&[F16_ONE, F16_ZERO, F16_ONE, F16_ZERO]))
        .expect("add failed");
    let mut buffer: Vec<u8> = vec![0; index.serialized_length()];
    index.save_to_buffer(&mut buffer).expect("save failed");

    let mut loaded = HighLevel::<F16, 4, Cos>::try_default().expect("construction failed");
    loaded.load_from_buffer(&buffer).expect("load failed");
    assert_eq!(loaded.size(), 2);

    let query = f16_vec(&[F16_HALF, F16_HALF, F16_HALF, F16_HALF]);
    let before = index.search(&query, 2).expect("search failed");
    let after = loaded.search(&query, 2).expect("search failed");
    assert_eq!(before.keys, after.keys);
    assert_eq!(before.distances, after.distances);
}

#[test]
fn view_from_buffer_reproduces_search_results() {
    let mut index = HighLevel::<F16, 4, Cos>::try_default().expect("construction failed");
    index
        .add(1, &f16_vec(&[F16_ZERO, F16_ONE, F16_ZERO, F16_ONE]))
        .expect("add failed");
    index
        .add(2, &f16_vec(&[F16_ONE, F16_ZERO, F16_ONE, F16_ZERO]))
        .expect("add failed");
    let mut buffer: Vec<u8> = vec![0; index.serialized_length()];
    index.save_to_buffer(&mut buffer).expect("save failed");

    let mut viewed = HighLevel::<F16, 4, Cos>::try_default().expect("construction failed");
    viewed.view_from_buffer(&buffer).expect("view failed");

    let query = f16_vec(&[F16_HALF, F16_HALF, F16_HALF, F16_HALF]);
    let before = index.search(&query, 2).expect("search failed");
    let after = viewed.search(&query, 2).expect("search failed");
    assert_eq!(before.keys, after.keys);
    assert_eq!(before.distances, after.distances);
}

#[test]
fn round_trip_preserves_every_vector() {
    let mut index = HighLevel::<i8, 3, L2sq>::new(4, 8, 16, false).expect("construction failed");
    index.add(10, &vec![1, -2, 3]).expect("add failed");
    index.add(20, &vec![-4, 5, -6]).expect("add failed");
    let mut buffer: Vec<u8> = vec![0; index.serialized_length()];
    index.save_to_buffer(&mut buffer).expect("save failed");

    let mut loaded = HighLevel::<i8, 3, L2sq>::try_default().expect("construction failed");
    loaded.load_from_buffer(&buffer).expect("load failed");
    assert_eq!(loaded.size(), 2);
    assert_eq!(loaded.connectivity(), 4);
    assert_eq!(loaded.expansion_add(), 8);
    assert_eq!(loaded.expansion_search(), 16);
    let mut buf: Vec<i8> = vec![0; 3];
    assert_eq!(loaded.get(10, &mut buf).expect("get failed"), 3);
    assert_eq!(buf, vec![1, -2, 3]);
    assert_eq!(loaded.get(20, &mut buf).expect("get failed"), 3);
    assert_eq!(buf, vec![-4, 5, -6]);
}

#[test]
fn serialized_length_matches_the_stream() {
    let mut index = HighLevel::<i8, 3, L2sq>::try_default().expect("construction failed");
    index.add(1, &vec![1, 2, 3]).expect("add failed");
    index.add(2, &vec![4, 5, 6]).expect("add failed");
    // 47 header bytes plus, per vector, a key word and one word per scalar.
    assert_eq!(index.serialized_length(), 47 + 2 * (8 + 3 * 8));
}

#[test]
fn save_into_short_buffer_is_rejected() {
    let mut index = HighLevel::<i8, 3, L2sq>::try_default().expect("construction failed");
    index.add(1, &vec![1, 2, 3]).expect("add failed");
    let mut buffer: Vec<u8> = vec![0; index.serialized_length() - 1];
    assert!(index.save_to_buffer(&mut buffer).is_err());
}

#[test]
fn load_of_garbage_is_rejected() {
    let mut index = HighLevel::<i8, 3, L2sq>::try_default().expect("construction failed");
    index.add(1, &vec![1, 2, 3]).expect("add failed");
    assert!(index.load_from_buffer(&vec![1, 2, 3]).is_err());
    // The index is untouched by a failing load.
    assert_eq!(index.size(), 1);
}

#[test]
fn load_with_mismatched_dimension_is_rejected() {
    let mut index = HighLevel::<i8, 3, L2sq>::try_default().expect("construction failed");
    index.add(1, &vec![1, 2, 3]).expect("add failed");
    let mut buffer: Vec<u8> = vec![0; index.serialized_length()];
    index.save_to_buffer(&mut buffer).expect("save failed");

    let mut other = HighLevel::<i8, 4, L2sq>::try_default().expect("construction failed");
    assert!(other.load_from_buffer(&buffer).is_err());
    assert_eq!(other.size(), 0);
}

#[test]
fn load_with_mismatched_quantization_is_rejected() {
    let mut index = HighLevel::<i8, 4, L2sq>::try_default().expect("construction failed");
    index.add(1, &vec![1, 2, 3, 4]).expect("add failed");
    let mut buffer: Vec<u8> = vec![0; index.serialized_length()];
    index.save_to_buffer(&mut buffer).expect("save failed");

    let mut other = HighLevel::<F16, 4, Cos>::try_default().expect("construction failed");
    assert!(other.load_from_buffer(&buffer).is_err());
}

#[test]
fn load_rejects_duplicate_keys_when_multi_is_disabled() {
    let mut index = HighLevel::<i8, 2, L2sq>::new(0, 0, 0, false).expect("construction failed");
    index.add(1, &vec![1, 2]).expect("add failed");
    index.add(2, &vec![3, 4]).expect("add failed");
    let mut buffer: Vec<u8> = vec![0; index.serialized_length()];
    index.save_to_buffer(&mut buffer).expect("save failed");

    // Relabel the second record's key to collide with the first: the
    // keys sit right after the 47-byte header, one record being a key
    // word plus one word per scalar.
    let entry_bytes = 8 + 2 * 8;
    let first_key = buffer[47..55].to_vec();
    buffer[47 + entry_bytes..47 + entry_bytes + 8].copy_from_slice(&first_key);

    let mut other = HighLevel::<i8, 2, L2sq>::new(0, 0, 0, false).expect("construction failed");
    assert!(other.load_from_buffer(&buffer).is_err());
    assert_eq!(other.size(), 0);
}

#[test]
fn multi_index_streams_carry_duplicate_keys() {
    let mut index = HighLevel::<i8, 2, L2sq>::new(0, 0, 0, true).expect("construction failed");
    index.add(1, &vec![1, 2]).expect("add failed");
    index.add(1, &vec![3, 4]).expect("add failed");
    let mut buffer: Vec<u8> = vec![0; index.serialized_length()];
    index.save_to_buffer(&mut buffer).expect("save failed");

    let mut loaded = HighLevel::<i8, 2, L2sq>::try_default().expect("construction failed");
    loaded.load_from_buffer(&buffer).expect("load failed");
    assert_eq!(loaded.count(1), 2);
}
