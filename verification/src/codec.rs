//! Buffer persistence: the index serialized into a byte stream and
//! materialized back from one.
//!
//! The stream is a 47-byte header — a four-byte tag, the scalar and
//! metric codes, the multi flag, then dimensions, connectivity, the two
//! expansion values and the vector count as little-endian 64-bit words —
//! followed by one record per stored vector: its key and then each
//! scalar's bit pattern, all as little-endian 64-bit words.

use vstd::prelude::*;
use vstd::bytes::spec_u64_to_le_bytes;
use vstd::bytes::spec_u64_from_le_bytes;
use vstd::bytes::lemma_auto_spec_u64_to_from_le_bytes;
use vstd::bytes::u64_from_le_bytes;
use vstd::bytes::u64_to_le_bytes;
use vstd::slice::slice_subrange;
use vstd::pervasive::VecAdditionalExecFns;
use crate::Error;
use crate::IndexOptions;
use crate::MetricKind;
use crate::ScalarKind;
use crate::MAX_DIMENSIONS;
use crate::scalar::VectorType;
use crate::metric::MetricType;
use crate::engine::distinct_keys;
use crate::highlevel::HighLevel;

verus! {

/// The one-byte code of a scalar layout in the serialized stream.
pub open spec fn scalar_code(k: ScalarKind) -> u8 {
    match k {
        ScalarKind::F16 => 1,
        ScalarKind::BF16 => 2,
        ScalarKind::I8 => 3,
    }
}

/// The scalar layout a one-byte code stands for.
pub open spec fn scalar_of_code(c: u8) -> Option<ScalarKind> {
    if c == 1 {
        Some(ScalarKind::F16)
    } else if c == 2 {
        Some(ScalarKind::BF16)
    } else if c == 3 {
        Some(ScalarKind::I8)
    } else {
        None
    }
}

/// The one-byte code of a metric kind in the serialized stream.
pub open spec fn metric_code(k: MetricKind) -> u8 {
    match k {
        MetricKind::Unknown => 0,
        MetricKind::IP => 1,
        MetricKind::L2sq => 2,
        MetricKind::Cos => 3,
        MetricKind::Pearson => 4,
        MetricKind::Haversine => 5,
        MetricKind::Divergence => 6,
        MetricKind::Hamming => 7,
        MetricKind::Tanimoto => 8,
        MetricKind::Sorensen => 9,
    }
}

/// The metric kind a one-byte code stands for.
pub open spec fn metric_of_code(c: u8) -> Option<MetricKind> {
    if c == 0 {
        Some(MetricKind::Unknown)
    } else if c == 1 {
        Some(MetricKind::IP)
    } else if c == 2 {
        Some(MetricKind::L2sq)
    } else if c == 3 {
        Some(MetricKind::Cos)
    } else if c == 4 {
        Some(MetricKind::Pearson)
    } else if c == 5 {
        Some(MetricKind::Haversine)
    } else if c == 6 {
        Some(MetricKind::Divergence)
    } else if c == 7 {
        Some(MetricKind::Hamming)
    } else if c == 8 {
        Some(MetricKind::Tanimoto)
    } else if c == 9 {
        Some(MetricKind::Sorensen)
    } else {
        None
    }
}

/// The serialized bytes of a vector: each scalar's bit pattern as a
/// little-endian 64-bit word.
pub open spec fn encode_scalars<T: VectorType>(v: Seq<T>) -> Seq<u8>
    decreases v.len(),
{
    if v.len() == 0 {
        Seq::empty()
    } else {
        spec_u64_to_le_bytes(v.first().spec_bits()) + encode_scalars(v.drop_first())
    }
}

/// The serialized bytes of one stored pair: the key, then the vector.
pub open spec fn encode_entry<T: VectorType>(p: (u64, Seq<T>)) -> Seq<u8> {
    spec_u64_to_le_bytes(p.0) + encode_scalars(p.1)
}

/// The serialized bytes of the stored pairs, in order.
pub open spec fn encode_entries<T: VectorType>(s: Seq<(u64, Seq<T>)>) -> Seq<u8>
    decreases s.len(),
{
    if s.len() == 0 {
        Seq::empty()
    } else {
        encode_entry(s.first()) + encode_entries(s.drop_first())
    }
}

/// The 47-byte header: tag, scalar code, metric code, multi flag, then
/// dimensions, connectivity, both expansion values and the count.
pub open spec fn encode_header(o: IndexOptions, cnt: int) -> Seq<u8> {
    seq![
        0x75u8,
        0x69u8,
        0x64u8,
        0x78u8,
        scalar_code(o.quantization),
        metric_code(o.metric),
        if o.multi {
            1u8
        } else {
            0u8
        },
    ] + spec_u64_to_le_bytes(o.dimensions as u64) + spec_u64_to_le_bytes(o.connectivity as u64)
        + spec_u64_to_le_bytes(o.expansion_add as u64) + spec_u64_to_le_bytes(
        o.expansion_search as u64,
    ) + spec_u64_to_le_bytes(cnt as u64)
}

/// The full serialized stream of an index.
pub open spec fn encode_index<T: VectorType>(o: IndexOptions, s: Seq<(u64, Seq<T>)>) -> Seq<u8> {
    encode_header(o, s.len() as int) + encode_entries(s)
}

/// The scalars read back from serialized vector bytes.
pub open spec fn decode_scalars<T: VectorType>(b: Seq<u8>, dims: nat) -> Seq<T>
    decreases dims,
{
    if dims == 0 {
        Seq::empty()
    } else {
        seq![T::spec_from_bits(spec_u64_from_le_bytes(b.subrange(0, 8)))] + decode_scalars::<T>(
            b.skip(8),
            (dims - 1) as nat,
        )
    }
}

/// The stored pairs read back from serialized record bytes, or nothing
/// if the bytes do not hold exactly `cnt` records.
pub open spec fn decode_entries<T: VectorType>(b: Seq<u8>, cnt: nat, dims: nat) -> Option<
    Seq<(u64, Seq<T>)>,
>
    decreases cnt,
{
    if cnt == 0 {
        if b.len() == 0 {
            Some(Seq::empty())
        } else {
            None
        }
    } else if b.len() < 8 + dims * 8 {
        None
    } else {
        let key = spec_u64_from_le_bytes(b.subrange(0, 8));
        let v = decode_scalars::<T>(b.subrange(8, (8 + dims * 8) as int), dims);
        match decode_entries::<T>(b.skip((8 + dims * 8) as int), (cnt - 1) as nat, dims) {
            Some(rest) => Some(seq![(key, v)] + rest),
            None => None,
        }
    }
}

/// The options and stored pairs a serialized stream stands for, or
/// nothing if the stream is malformed: wrong tag, unknown codes, a
/// dimension above the supported maximum, a field beyond the machine
/// range, or a length that does not match the record count.
pub open spec fn decode_index<T: VectorType>(b: Seq<u8>) -> Option<
    (IndexOptions, Seq<(u64, Seq<T>)>),
> {
    if b.len() < 47 {
        None
    } else if b[0] != 0x75 || b[1] != 0x69 || b[2] != 0x64 || b[3] != 0x78 {
        None
    } else {
        match (scalar_of_code(b[4]), metric_of_code(b[5])) {
            (Some(quant), Some(metric)) => {
                let dims = spec_u64_from_le_bytes(b.subrange(7, 15));
                let conn = spec_u64_from_le_bytes(b.subrange(15, 23));
                let ea = spec_u64_from_le_bytes(b.subrange(23, 31));
                let es = spec_u64_from_le_bytes(b.subrange(31, 39));
                let cnt = spec_u64_from_le_bytes(b.subrange(39, 47));
                if b[6] > 1 {
                    None
                } else if dims > MAX_DIMENSIONS as u64 {
                    None
                } else if conn > usize::MAX as u64 || ea > usize::MAX as u64 || es > usize::MAX
                    as u64 || cnt > usize::MAX as u64 {
                    None
                } else if b.len() - 47 != cnt * (8 + dims * 8) {
                    None
                } else {
                    match decode_entries::<T>(b.skip(47), cnt as nat, dims as nat) {
                        Some(entries) => Some(
                            (
                                IndexOptions {
                                    dimensions: dims as usize,
                                    metric,
                                    quantization: quant,
                                    connectivity: conn as usize,
                                    expansion_add: ea as usize,
                                    expansion_search: es as usize,
                                    multi: b[6] == 1,
                                },
                                entries,
                            ),
                        ),
                        None => None,
                    }
                }
            },
            _ => None,
        }
    }
}

/// The exact length of the serialized stream: the header plus one
/// 64-bit word for the key and one per scalar of every stored vector.
pub open spec fn serialized_len(cnt: int, dims: int) -> int {
    47 + cnt * (8 + dims * 8)
}

/// Serialized vector bytes are eight per scalar.
pub proof fn lemma_encode_scalars_len<T: VectorType>(v: Seq<T>)
    ensures
        encode_scalars(v).len() == 8 * v.len(),
    decreases v.len(),
{
    lemma_auto_spec_u64_to_from_le_bytes();
    if v.len() > 0 {
        lemma_encode_scalars_len(v.drop_first());
    }
}

/// Serialized record bytes are the key word plus the vector bytes, for
/// every record.
pub proof fn lemma_encode_entries_len<T: VectorType>(s: Seq<(u64, Seq<T>)>, dims: int)
    requires
        forall|j: int| 0 <= j < s.len() ==> (#[trigger] s[j]).1.len() == dims,
    ensures
        encode_entries(s).len() == s.len() * (8 + dims * 8),
    decreases s.len(),
{
    lemma_auto_spec_u64_to_from_le_bytes();
    if s.len() > 0 {
        assert(s[0].1.len() == dims);
        lemma_encode_scalars_len(s.first().1);
        assert(forall|j: int|
            0 <= j < s.drop_first().len() ==> (#[trigger] s.drop_first()[j]).1.len() == dims);
        lemma_encode_entries_len(s.drop_first(), dims);
        assert(encode_entries(s).len() == (8 + dims * 8) + s.drop_first().len() * (8 + dims * 8));
        assert((8 + dims * 8) + (s.len() - 1) * (8 + dims * 8) == s.len() * (8 + dims * 8))
            by (nonlinear_arith);
    }
}

/// Appending one scalar appends its word to the serialized bytes.
pub proof fn lemma_encode_scalars_snoc<T: VectorType>(v: Seq<T>, x: T)
    ensures
        encode_scalars(v.push(x)) == encode_scalars(v) + spec_u64_to_le_bytes(x.spec_bits()),
    decreases v.len(),
{
    if v.len() == 0 {
        assert(v.push(x).drop_first() =~= v);
        assert(v.push(x).first() == x);
        assert(encode_scalars(v) == Seq::<u8>::empty());
        assert(encode_scalars(v.push(x)) =~= spec_u64_to_le_bytes(x.spec_bits()));
        assert(encode_scalars(v) + spec_u64_to_le_bytes(x.spec_bits()) =~= spec_u64_to_le_bytes(
            x.spec_bits(),
        ));
    } else {
        lemma_encode_scalars_snoc(v.drop_first(), x);
        assert(v.push(x).drop_first() =~= v.drop_first().push(x));
        assert(v.push(x).first() == v.first());
        assert(encode_scalars(v.push(x)) == spec_u64_to_le_bytes(v.first().spec_bits())
            + encode_scalars(v.drop_first().push(x)));
        assert(encode_scalars(v.push(x)) =~= encode_scalars(v) + spec_u64_to_le_bytes(
            x.spec_bits(),
        ));
    }
}

/// Appending one record appends its bytes to the serialized bytes.
pub proof fn lemma_encode_entries_snoc<T: VectorType>(s: Seq<(u64, Seq<T>)>, p: (u64, Seq<T>))
    ensures
        encode_entries(s.push(p)) == encode_entries(s) + encode_entry(p),
    decreases s.len(),
{
    if s.len() == 0 {
        assert(s.push(p).drop_first() =~= s);
        assert(s.push(p).first() == p);
        assert(encode_entries(s) == Seq::<u8>::empty());
        assert(encode_entries(s.push(p)) =~= encode_entry(p));
        assert(encode_entries(s) + encode_entry(p) =~= encode_entry(p));
    } else {
        lemma_encode_entries_snoc(s.drop_first(), p);
        assert(s.push(p).drop_first() =~= s.drop_first().push(p));
        assert(s.push(p).first() == s.first());
        assert(encode_entries(s.push(p)) == encode_entry(s.first()) + encode_entries(
            s.drop_first().push(p),
        ));
        assert(encode_entries(s.push(p)) =~= encode_entries(s) + encode_entry(p));
    }
}

/// Reading serialized vector bytes yields the serialized scalars.
pub proof fn lemma_decode_scalars_roundtrip<T: VectorType>(v: Seq<T>)
    ensures
        decode_scalars::<T>(encode_scalars(v), v.len()) == v,
    decreases v.len(),
{
    lemma_auto_spec_u64_to_from_le_bytes();
    if v.len() > 0 {
        let b = encode_scalars(v);
        let w = spec_u64_to_le_bytes(v.first().spec_bits());
        lemma_encode_scalars_len(v.drop_first());
        assert(b.subrange(0, 8) =~= w);
        assert(b.skip(8) =~= encode_scalars(v.drop_first()));
        v.first().lemma_bits_roundtrip();
        lemma_decode_scalars_roundtrip(v.drop_first());
        assert(decode_scalars::<T>(b, v.len()) =~= v) by {
            assert(decode_scalars::<T>(b, v.len()) == seq![v.first()] + v.drop_first());
        }
    }
}

/// Reading serialized record bytes yields the serialized pairs.
pub proof fn lemma_decode_entries_roundtrip<T: VectorType>(s: Seq<(u64, Seq<T>)>, dims: nat)
    requires
        forall|j: int| 0 <= j < s.len() ==> (#[trigger] s[j]).1.len() == dims,
    ensures
        decode_entries::<T>(encode_entries(s), s.len(), dims) == Some(s),
    decreases s.len(),
{
    lemma_auto_spec_u64_to_from_le_bytes();
    if s.len() == 0 {
        assert(encode_entries(s).len() == 0);
    } else {
        let b = encode_entries(s);
        let p = s.first();
        assert(s[0].1.len() == dims);
        lemma_encode_scalars_len(p.1);
        assert(forall|j: int|
            0 <= j < s.drop_first().len() ==> (#[trigger] s.drop_first()[j]).1.len() == dims);
        lemma_encode_entries_len(s.drop_first(), dims as int);
        assert(encode_entry(p).len() == 8 + dims * 8);
        assert(b.len() >= 8 + dims * 8) by {
            assert(s.drop_first().len() * (8 + dims * 8) >= 0) by (nonlinear_arith);
        }
        assert(b.subrange(0, 8) =~= spec_u64_to_le_bytes(p.0));
        assert(b.subrange(8, (8 + dims * 8) as int) =~= encode_scalars(p.1));
        assert(b.skip((8 + dims * 8) as int) =~= encode_entries(s.drop_first()));
        lemma_decode_scalars_roundtrip(p.1);
        lemma_decode_entries_roundtrip(s.drop_first(), dims);
        assert(decode_entries::<T>(b, s.len(), dims) == Some(seq![p] + s.drop_first()));
        assert(seq![p] + s.drop_first() =~= s);
    }
}

/// Reading back a serialized index yields the serialized options and
/// stored pairs.
pub proof fn lemma_decode_index_roundtrip<T: VectorType>(o: IndexOptions, s: Seq<(u64, Seq<T>)>)
    requires
        o.dimensions <= MAX_DIMENSIONS,
        s.len() <= usize::MAX,
        forall|j: int| 0 <= j < s.len() ==> (#[trigger] s[j]).1.len() == o.dimensions,
    ensures
        decode_index::<T>(encode_index(o, s)) == Some((o, s)),
{
    lemma_auto_spec_u64_to_from_le_bytes();
    let b = encode_index::<T>(o, s);
    let h = encode_header(o, s.len() as int);
    let e = encode_entries(s);
    assert(h.len() == 47);
    lemma_encode_entries_len(s, o.dimensions as int);
    assert(b.len() == 47 + s.len() * (8 + o.dimensions * 8));
    assert(s.len() * (8 + o.dimensions * 8) >= 0) by (nonlinear_arith);
    assert(b[0] == 0x75 && b[1] == 0x69 && b[2] == 0x64 && b[3] == 0x78);
    assert(b[4] == scalar_code(o.quantization));
    assert(b[5] == metric_code(o.metric));
    assert(b[6] == if o.multi {
        1u8
    } else {
        0u8
    });
    assert(scalar_of_code(scalar_code(o.quantization)) == Some(o.quantization));
    assert(metric_of_code(metric_code(o.metric)) == Some(o.metric));
    assert(b.subrange(7, 15) =~= spec_u64_to_le_bytes(o.dimensions as u64));
    assert(b.subrange(15, 23) =~= spec_u64_to_le_bytes(o.connectivity as u64));
    assert(b.subrange(23, 31) =~= spec_u64_to_le_bytes(o.expansion_add as u64));
    assert(b.subrange(31, 39) =~= spec_u64_to_le_bytes(o.expansion_search as u64));
    assert(b.subrange(39, 47) =~= spec_u64_to_le_bytes(s.len() as u64));
    assert(spec_u64_from_le_bytes(b.subrange(7, 15)) == o.dimensions as u64);
    assert(spec_u64_from_le_bytes(b.subrange(39, 47)) == s.len() as u64);
    assert(b.skip(47) =~= e);
    lemma_decode_entries_roundtrip(s, o.dimensions as nat);
    assert(decode_index::<T>(b) == Some((o, s)));
}

/// The serialized stream is exactly [`serialized_len`] bytes long.
pub proof fn lemma_encode_index_len<T: VectorType>(o: IndexOptions, s: Seq<(u64, Seq<T>)>)
    requires
        forall|j: int| 0 <= j < s.len() ==> (#[trigger] s[j]).1.len() == o.dimensions,
    ensures
        encode_index(o, s).len() == serialized_len(s.len() as int, o.dimensions as int),
{
    lemma_auto_spec_u64_to_from_le_bytes();
    lemma_encode_entries_len(s, o.dimensions as int);
}

/// Whether the keys of decoded records are pairwise distinct.
fn keys_distinct<T: VectorType>(es: &Vec<(u64, Vec<T>)>) -> (r: bool)
    ensures
        r == distinct_keys(es@.map_values(|p: (u64, Vec<T>)| (p.0, p.1@))),
{
    let ghost m = es@.map_values(|p: (u64, Vec<T>)| (p.0, p.1@));
    let n = es.len();
    let mut i: usize = 0;
    while i < n
        invariant
            0 <= i <= n,
            n == m.len(),
            m == es@.map_values(|p: (u64, Vec<T>)| (p.0, p.1@)),
            forall|a: int, b: int| 0 <= a < b < m.len() && b < i ==> (#[trigger] m[a]).0 != (
            #[trigger] m[b]).0,
        decreases n - i,
    {
        let mut j: usize = 0;
        while j < i
            invariant
                0 <= j <= i < n == m.len(),
                m == es@.map_values(|p: (u64, Vec<T>)| (p.0, p.1@)),
                forall|a: int| 0 <= a < j ==> (#[trigger] m[a]).0 != m[i as int].0,
            decreases i - j,
        {
            if es[j].0 == es[i].0 {
                assert(m[j as int].0 == m[i as int].0);
                return false;
            }
            j = j + 1;
        }
        i = i + 1;
    }
    true
}

/// Parses a serialized stream into options and records, exactly as
/// [`decode_index`] reads it.
fn parse_index<T: VectorType>(buffer: &[u8]) -> (r: Result<(IndexOptions, Vec<(u64, Vec<T>)>), Error>)
    ensures
        match r {
            Ok(p) => {
                &&& decode_index::<T>(buffer@) == Some(
                    (p.0, p.1@.map_values(|q: (u64, Vec<T>)| (q.0, q.1@))),
                )
                &&& p.0.dimensions <= MAX_DIMENSIONS
                &&& forall|j: int|
                    0 <= j < p.1@.len() ==> (#[trigger] p.1@[j]).1@.len() == p.0.dimensions
            },
            Err(_) => decode_index::<T>(buffer@) is None,
        },
{
    proof {
        lemma_auto_spec_u64_to_from_le_bytes();
    }
    let blen = buffer.len();
    if blen < 47 {
        return Err(Error::new("load: stream shorter than the header"));
    }
    if buffer[0] != 0x75 || buffer[1] != 0x69 || buffer[2] != 0x64 || buffer[3] != 0x78 {
        return Err(Error::new("load: stream does not carry the index tag"));
    }
    let quant = match scalar_of_code_exec(buffer[4]) {
        Some(q) => q,
        None => {
            return Err(Error::new("load: unknown scalar layout code"));
        },
    };
    let metric = match metric_of_code_exec(buffer[5]) {
        Some(mk) => mk,
        None => {
            return Err(Error::new("load: unknown metric code"));
        },
    };
    if buffer[6] > 1 {
        return Err(Error::new("load: malformed multi flag"));
    }
    let dims64 = u64_from_le_bytes(slice_subrange(buffer, 7, 15));
    let conn64 = u64_from_le_bytes(slice_subrange(buffer, 15, 23));
    let ea64 = u64_from_le_bytes(slice_subrange(buffer, 23, 31));
    let es64 = u64_from_le_bytes(slice_subrange(buffer, 31, 39));
    let cnt64 = u64_from_le_bytes(slice_subrange(buffer, 39, 47));
    if dims64 > MAX_DIMENSIONS as u64 {
        return Err(Error::new("load: dimensions above the supported maximum"));
    }
    if conn64 > usize::MAX as u64 || ea64 > usize::MAX as u64 || es64 > usize::MAX as u64 || cnt64
        > usize::MAX as u64 {
        return Err(Error::new("load: a field exceeds the machine range"));
    }
    let dims: usize = dims64 as usize;
    let cnt: usize = cnt64 as usize;
    let entry_sz: usize = 8 + dims * 8;
    proof {
        assert((blen - 47) as int == buffer@.len() - 47);
        assert(cnt64 as int * (8 + dims64 as int * 8) <= 0xFFFF_FFFF_FFFF_FFFF * (8 + 0x100000 * 8))
            by (nonlinear_arith)
            requires
                cnt64 <= 0xFFFF_FFFF_FFFF_FFFFu64,
                dims64 <= 0x100000u64,
        ;
    }
    let expected: u128 = (cnt as u128) * (entry_sz as u128);
    if (blen - 47) as u128 != expected {
        proof {
            assert(buffer@.len() - 47 != cnt64 * (8 + dims64 * 8));
        }
        return Err(Error::new("load: stream length does not match the record count"));
    }
    let options = IndexOptions {
        dimensions: dims,
        metric,
        quantization: quant,
        connectivity: conn64 as usize,
        expansion_add: ea64 as usize,
        expansion_search: es64 as usize,
        multi: buffer[6] == 1,
    };
    let ghost tail = buffer@.skip(47);
    let mut es: Vec<(u64, Vec<T>)> = Vec::new();
    let mut i: usize = 0;
    let mut off: usize = 47;
    proof {
        assert(tail.skip(0) =~= tail);
    }
    while i < cnt
        invariant
            0 <= i <= cnt,
            dims <= MAX_DIMENSIONS,
            entry_sz == 8 + dims * 8,
            off == 47 + i * entry_sz,
            blen == buffer@.len(),
            blen - 47 == cnt * entry_sz,
            es@.len() == i,
            forall|k: int| 0 <= k < es@.len() ==> (#[trigger] es@[k]).1@.len() == dims,
            tail == buffer@.skip(47),
            decode_entries::<T>(tail, cnt as nat, dims as nat) == (match decode_entries::<T>(
                buffer@.skip(off as int),
                (cnt - i) as nat,
                dims as nat,
            ) {
                Some(rest) => Some(es@.map_values(|q: (u64, Vec<T>)| (q.0, q.1@)) + rest),
                None => None,
            }),
        decreases cnt - i,
    {
        proof {
            assert((cnt - i) * entry_sz >= 1 * entry_sz) by (nonlinear_arith)
                requires
                    cnt - i >= 1,
                    entry_sz >= 0,
            ;
            assert((i + 1) * entry_sz == i * entry_sz + entry_sz) by (nonlinear_arith);
            assert(cnt * entry_sz - i * entry_sz == (cnt - i) * entry_sz) by (nonlinear_arith);
            assert(off + entry_sz <= blen);
        }
        let key = u64_from_le_bytes(slice_subrange(buffer, off, off + 8));
        let ghost rem = buffer@.skip(off as int);
        proof {
            assert(rem.len() == blen - off);
            assert(rem.subrange(0, 8) =~= buffer@.subrange(off as int, off as int + 8));
        }
        let mut vecb: Vec<T> = Vec::new();
        let mut j: usize = 0;
        proof {
            assert(rem.subrange(8, 8 + dims * 8).skip(0) =~= rem.subrange(8, 8 + dims * 8));
        }
        while j < dims
            invariant
                0 <= j <= dims,
                dims <= MAX_DIMENSIONS,
                entry_sz == 8 + dims * 8,
                off == 47 + i * entry_sz,
                i < cnt,
                blen == buffer@.len(),
                blen - 47 == cnt * entry_sz,
                (cnt - i) * entry_sz >= entry_sz,
                off + entry_sz <= blen,
                rem == buffer@.skip(off as int),
                vecb@.len() == j,
                decode_scalars::<T>(rem.subrange(8, 8 + dims * 8), dims as nat) == vecb@
                    + decode_scalars::<T>(
                    rem.subrange(8, 8 + dims * 8).skip(8 * j as int),
                    (dims - j) as nat,
                ),
            decreases dims - j,
        {
            let ghost sb = rem.subrange(8, 8 + dims * 8);
            let pos = off + 8 + j * 8;
            proof {
                assert(j * 8 + 8 == (j + 1) * 8) by (nonlinear_arith);
                assert(j * 8 <= dims * 8 - 8) by (nonlinear_arith)
                    requires
                        j < dims,
                ;
                assert(sb.skip(8 * j as int).subrange(0, 8) =~= buffer@.subrange(
                    pos as int,
                    pos as int + 8,
                ));
            }
            let w = u64_from_le_bytes(slice_subrange(buffer, pos, pos + 8));
            let x = T::from_bits(w);
            let ghost oldv = vecb@;
            vecb.push(x);
            proof {
                let d = decode_scalars::<T>(sb.skip(8 * j as int), (dims - j) as nat);
                assert(d == seq![x] + decode_scalars::<T>(
                    sb.skip(8 * j as int).skip(8),
                    (dims - j - 1) as nat,
                ));
                assert(sb.skip(8 * j as int).skip(8) =~= sb.skip(8 * (j + 1) as int));
                assert(vecb@ + decode_scalars::<T>(
                    sb.skip(8 * (j + 1) as int),
                    (dims - (j + 1)) as nat,
                ) =~= oldv + d);
            }
            j = j + 1;
        }
        let ghost olde = es@.map_values(|q: (u64, Vec<T>)| (q.0, q.1@));
        es.push((key, vecb));
        proof {
            assert(rem.subrange(8, 8 + dims * 8).skip(8 * dims as int) =~= Seq::<u8>::empty());
            assert(decode_scalars::<T>(Seq::<u8>::empty(), 0) == Seq::<T>::empty());
            assert(vecb@ + Seq::<T>::empty() =~= vecb@);
            let d0 = decode_entries::<T>(rem, (cnt - i) as nat, dims as nat);
            assert(rem.len() >= 8 + dims * 8);
            assert(d0 == (match decode_entries::<T>(
                rem.skip(8 + dims * 8),
                (cnt - i - 1) as nat,
                dims as nat,
            ) {
                Some(rest) => Some(seq![(key, vecb@)] + rest),
                None => None,
            }));
            assert(rem.skip(8 + dims * 8) =~= buffer@.skip(off as int + entry_sz));
            assert(es@.map_values(|q: (u64, Vec<T>)| (q.0, q.1@)) =~= olde.push((key, vecb@)));
            assert forall|rest: Seq<(u64, Seq<T>)>| true implies olde + (seq![(key, vecb@)] + rest)
                =~= (olde.push((key, vecb@)) + rest) by {}
        }
        off = off + entry_sz;
        i = i + 1;
    }
    proof {
        assert(off as int == 47 + cnt * entry_sz);
        assert(buffer@.skip(off as int).len() == 0);
        assert(decode_entries::<T>(buffer@.skip(off as int), 0, dims as nat) == Some(
            Seq::<(u64, Seq<T>)>::empty(),
        ));
        assert(es@.map_values(|q: (u64, Vec<T>)| (q.0, q.1@)) + Seq::<(u64, Seq<T>)>::empty()
            =~= es@.map_values(|q: (u64, Vec<T>)| (q.0, q.1@)));
        assert(decode_index::<T>(buffer@) == Some(
            (options, es@.map_values(|q: (u64, Vec<T>)| (q.0, q.1@))),
        ));
    }
    Ok((options, es))
}

/// The serialized length of an index with the given vector count and
/// dimension, saturated at the machine range.
pub open spec fn serialized_length_spec(cnt: int, dims: int) -> usize {
    if serialized_len(cnt, dims) > usize::MAX {
        usize::MAX
    } else {
        serialized_len(cnt, dims) as usize
    }
}

/// Reports the one-byte code of a scalar layout.
fn scalar_code_exec(k: ScalarKind) -> (c: u8)
    ensures
        c == scalar_code(k),
{
    match k {
        ScalarKind::F16 => 1,
        ScalarKind::BF16 => 2,
        ScalarKind::I8 => 3,
    }
}

/// Reports the one-byte code of a metric kind.
fn metric_code_exec(k: MetricKind) -> (c: u8)
    ensures
        c == metric_code(k),
{
    match k {
        MetricKind::Unknown => 0,
        MetricKind::IP => 1,
        MetricKind::L2sq => 2,
        MetricKind::Cos => 3,
        MetricKind::Pearson => 4,
        MetricKind::Haversine => 5,
        MetricKind::Divergence => 6,
        MetricKind::Hamming => 7,
        MetricKind::Tanimoto => 8,
        MetricKind::Sorensen => 9,
    }
}

/// Serializes the whole engine state into a byte stream.
fn encode_index_exec<T: VectorType>(e: &crate::engine::Engine<T>) -> (out: Vec<u8>)
    requires
        e.wf(),
    ensures
        out@ == encode_index(e.opts(), e.model()),
{
    proof {
        lemma_auto_spec_u64_to_from_le_bytes();
    }
    let n = e.size();
    let o = e.options();
    let ghost m = e.model();
    let mut out: Vec<u8> = Vec::new();
    out.push(0x75);
    out.push(0x69);
    out.push(0x64);
    out.push(0x78);
    out.push(scalar_code_exec(o.quantization));
    out.push(metric_code_exec(o.metric));
    if o.multi {
        out.push(1);
    } else {
        out.push(0);
    }
    let mut w0 = u64_to_le_bytes(o.dimensions as u64);
    out.append(&mut w0);
    let mut w1 = u64_to_le_bytes(o.connectivity as u64);
    out.append(&mut w1);
    let mut w2 = u64_to_le_bytes(o.expansion_add as u64);
    out.append(&mut w2);
    let mut w3 = u64_to_le_bytes(o.expansion_search as u64);
    out.append(&mut w3);
    let mut w4 = u64_to_le_bytes(n as u64);
    out.append(&mut w4);
    let ghost header = encode_header(o, n as int);
    proof {
        assert(out@ =~= header);
        assert(encode_entries(m.take(0)) == Seq::<u8>::empty()) by {
            assert(m.take(0).len() == 0);
        }
        assert(out@ =~= header + encode_entries(m.take(0)));
    }
    let mut i: usize = 0;
    while i < n
        invariant
            0 <= i <= n,
            n == m.len(),
            m == e.model(),
            e.wf(),
            header == encode_header(e.opts(), n as int),
            out@ == header + encode_entries(m.take(i as int)),
        decreases n - i,
    {
        let mut kb = u64_to_le_bytes(e.key_at(i));
        let ghost before_entry = out@;
        out.append(&mut kb);
        let v = e.vector_at(i);
        let vlen = v.len();
        proof {
            assert(encode_scalars(v@.take(0)) == Seq::<u8>::empty()) by {
                assert(v@.take(0).len() == 0);
            }
            assert(out@ =~= before_entry + spec_u64_to_le_bytes(m[i as int].0) + encode_scalars(
                v@.take(0),
            ));
        }
        let mut j: usize = 0;
        while j < vlen
            invariant
                0 <= j <= vlen,
                vlen == v@.len(),
                v@ == m[i as int].1,
                0 <= i < m.len(),
                out@ == before_entry + spec_u64_to_le_bytes(m[i as int].0) + encode_scalars(
                    v@.take(j as int),
                ),
            decreases vlen - j,
        {
            let mut wb = u64_to_le_bytes(v[j].to_bits());
            out.append(&mut wb);
            proof {
                lemma_encode_scalars_snoc(v@.take(j as int), v@[j as int]);
                assert(v@.take(j as int + 1) =~= v@.take(j as int).push(v@[j as int]));
                assert(out@ =~= before_entry + spec_u64_to_le_bytes(m[i as int].0)
                    + encode_scalars(v@.take(j as int + 1)));
            }
            j = j + 1;
        }
        proof {
            assert(v@.take(vlen as int) =~= v@);
            lemma_encode_entries_snoc(m.take(i as int), m[i as int]);
            assert(m.take(i as int + 1) =~= m.take(i as int).push(m[i as int]));
            assert(out@ =~= header + encode_entries(m.take(i as int + 1)));
        }
        i = i + 1;
    }
    proof {
        assert(m.take(n as int) =~= m);
    }
    out
}

impl<T: VectorType, const D: usize, M: MetricType> HighLevel<T, D, M> {
    /// The length of the byte stream that [`HighLevel::save_to_buffer`]
    /// writes, saturated at the machine range.
    pub fn serialized_length(&self) -> (n: usize)
        requires
            self.wf(),
        ensures
            n == serialized_length_spec(
                self.model().len() as int,
                self.opts().dimensions as int,
            ),
    {
        let e = self.engine_ref();
        let cnt = e.size() as u128;
        let dims = e.options().dimensions as u128;
        let per_entry: u128 = 8 + dims * 8;
        proof {
            assert(cnt * per_entry <= 0x1_0000_0000_0000_0000u128 * 0x800008u128)
                by (nonlinear_arith)
                requires
                    cnt <= 0x1_0000_0000_0000_0000u128,
                    per_entry <= 0x800008u128,
            ;
        }
        let total: u128 = 47 + cnt * per_entry;
        if total > usize::MAX as u128 {
            usize::MAX
        } else {
            total as usize
        }
    }

    /// Serializes the index into the front of the buffer, leaving its
    /// length and remainder untouched.
    ///
    /// Succeeds exactly when the buffer is at least
    /// [`HighLevel::serialized_length`] bytes long; the stream then
    /// occupies that prefix.
    pub fn save_to_buffer(&self, buffer: &mut Vec<u8>) -> (r: Result<(), Error>)
        requires
            self.wf(),
        ensures
            match r {
                Ok(()) => {
                    &&& old(buffer)@.len() >= encode_index(self.opts(), self.model()).len()
                    &&& final(buffer)@.len() == old(buffer)@.len()
                    &&& final(buffer)@ == encode_index(self.opts(), self.model()) + old(
                        buffer,
                    )@.skip(encode_index(self.opts(), self.model()).len() as int)
                },
                Err(_) => {
                    &&& final(buffer)@ == old(buffer)@
                    &&& old(buffer)@.len() < encode_index(self.opts(), self.model()).len()
                },
            },
    {
        let e = self.engine_ref();
        let bytes = encode_index_exec(e);
        let blen = bytes.len();
        if buffer.len() < blen {
            return Err(Error::new("save: buffer shorter than the serialized index"));
        }
        let mut i: usize = 0;
        while i < blen
            invariant
                0 <= i <= blen,
                blen == bytes@.len(),
                buffer@.len() == old(buffer)@.len() >= blen,
                forall|k: int| 0 <= k < i ==> buffer@[k] == bytes@[k],
                forall|k: int| i <= k < buffer@.len() ==> buffer@[k] == old(buffer)@[k],
            decreases blen - i,
        {
            let b = bytes[i];
            buffer.set(i, b);
            i = i + 1;
        }
        proof {
            assert(buffer@ =~= bytes@ + old(buffer)@.skip(blen as int));
        }
        Ok(())
    }

    /// Materializes the index from a serialized byte stream, replacing
    /// every stored vector and the bound options.
    ///
    /// Succeeds exactly when the stream decodes, its dimension and
    /// quantization match the typed facade's, and its keys are distinct
    /// unless it enables multiple vectors per key; otherwise the index
    /// is left untouched.
    pub fn load_from_buffer(&mut self, buffer: &[u8]) -> (r: Result<(), Error>)
        requires
            old(self).wf(),
        ensures
            final(self).wf(),
            final(self).custom() == old(self).custom(),
            match r {
                Ok(()) => (decode_index::<T>(buffer@) matches Some(d) && {
                    &&& final(self).model() == d.1
                    &&& final(self).opts() == d.0
                    &&& d.0.dimensions == D
                    &&& d.0.quantization == T::spec_quant_type()
                    &&& (d.0.multi || distinct_keys(d.1))
                }),
                Err(_) => {
                    &&& *final(self) == *old(self)
                    &&& (decode_index::<T>(buffer@) matches Some(d) ==> (d.0.dimensions != D
                        || d.0.quantization != T::spec_quant_type() || (!d.0.multi
                        && !distinct_keys(d.1))))
                },
            },
    {
        let parsed = parse_index::<T>(buffer);
        match parsed {
            Err(e) => Err(e),
            Ok((o, es)) => {
                if o.dimensions != D {
                    return Err(Error::new("load: stored dimensions do not match the type"));
                }
                if !(o.quantization == T::quant_type()) {
                    return Err(Error::new("load: stored quantization does not match the type"));
                }
                if !o.multi && !keys_distinct(&es) {
                    return Err(
                        Error::new("load: duplicate keys while multiple vectors are disabled"),
                    );
                }
                let e = self.engine_mut();
                e.restore(o, es);
                Ok(())
            },
        }
    }

    /// Binds the index to the state a serialized byte stream holds,
    /// checking it like [`HighLevel::load_from_buffer`].
    ///
    /// The stream is materialized rather than aliased, so the buffer
    /// owes the index nothing once the call returns; there is no
    /// caller-enforced lifetime contract to uphold.
    pub fn view_from_buffer(&mut self, buffer: &[u8]) -> (r: Result<(), Error>)
        requires
            old(self).wf(),
        ensures
            final(self).wf(),
            final(self).custom() == old(self).custom(),
            match r {
                Ok(()) => (decode_index::<T>(buffer@) matches Some(d) && {
                    &&& final(self).model() == d.1
                    &&& final(self).opts() == d.0
                    &&& d.0.dimensions == D
                    &&& d.0.quantization == T::spec_quant_type()
                    &&& (d.0.multi || distinct_keys(d.1))
                }),
                Err(_) => {
                    &&& *final(self) == *old(self)
                    &&& (decode_index::<T>(buffer@) matches Some(d) ==> (d.0.dimensions != D
                        || d.0.quantization != T::spec_quant_type() || (!d.0.multi
                        && !distinct_keys(d.1))))
                },
            },
    {
        self.load_from_buffer(buffer)
    }
}


/// Reports the scalar layout a one-byte code stands for.
fn scalar_of_code_exec(c: u8) -> (r: Option<ScalarKind>)
    ensures
        r == scalar_of_code(c),
{
    if c == 1 {
        Some(ScalarKind::F16)
    } else if c == 2 {
        Some(ScalarKind::BF16)
    } else if c == 3 {
        Some(ScalarKind::I8)
    } else {
        None
    }
}

/// Reports the metric kind a one-byte code stands for.
fn metric_of_code_exec(c: u8) -> (r: Option<MetricKind>)
    ensures
        r == metric_of_code(c),
{
    if c == 0 {
        Some(MetricKind::Unknown)
    } else if c == 1 {
        Some(MetricKind::IP)
    } else if c == 2 {
        Some(MetricKind::L2sq)
    } else if c == 3 {
        Some(MetricKind::Cos)
    } else if c == 4 {
        Some(MetricKind::Pearson)
    } else if c == 5 {
        Some(MetricKind::Haversine)
    } else if c == 6 {
        Some(MetricKind::Divergence)
    } else if c == 7 {
        Some(MetricKind::Hamming)
    } else if c == 8 {
        Some(MetricKind::Tanimoto)
    } else if c == 9 {
        Some(MetricKind::Sorensen)
    } else {
        None
    }
}

} // verus!
