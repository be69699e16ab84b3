//! Work division and the collective exchange primitives.
//!
//! Every tick the vehicle population is split into contiguous, near-equal
//! index ranges, one per worker, and the per-worker results are merged
//! back through two collective operations: a variable-count all-gather
//! and a broadcast.  Both are modelled here in memory over the wire
//! format, with the framing the wire protocol uses: per-worker byte
//! counts, prefix-sum displacements and one concatenated payload buffer.

use crate::model::codec;
use crate::model::stateful;
use vstd::prelude::*;

verus! {

/// Why a collective exchange failed: a payload that did not decode, or a
/// byte count that does not fit the wire's length type.
#[derive(Clone, Copy, Debug, PartialEq, Eq, Structural)]
pub enum CommunicationError {
    Serialization,
    IntegerConversion,
}

/// The wire's length type bound: one payload's byte count must fit `u32`.
pub const WIRE_COUNT_LIMIT: usize = 0xffff_ffff;

/// The contiguous index range `[first, last)` assigned to one worker.
#[derive(Clone, Copy, Debug, PartialEq, Eq, Structural)]
pub struct Division {
    pub first: usize,
    pub last: usize,
}

/// Size of each worker's chunk: `count / size`, rounded up.
pub open spec fn spec_chunk(count: nat, size: nat) -> nat
    recommends
        size > 0,
{
    if count % size == 0 {
        count / size
    } else {
        count / size + 1
    }
}

/// Start of worker `rank`'s range.
pub open spec fn spec_first(count: nat, rank: nat, size: nat) -> nat {
    spec_chunk(count, size) * rank
}

/// End of worker `rank`'s range (exclusive).
pub open spec fn spec_last(count: nat, rank: nat, size: nat) -> nat {
    vstd::math::min(count as int, (spec_chunk(count, size) * (rank + 1)) as int) as nat
}

impl Division {
    /// The range assigned to worker `rank` out of `size` workers over
    /// `count` items.
    pub fn new(count: usize, rank: usize, size: usize) -> (d: Division)
        requires
            rank < size,
            count + size <= usize::MAX,
        ensures
            d.first == spec_first(count as nat, rank as nat, size as nat),
            d.last == spec_last(count as nat, rank as nat, size as nat),
            d.last <= count,
    {
        proof {
            vstd::arithmetic::div_mod::lemma_div_nonincreasing(count as int, size as int);
        }
        let basic_count: usize = if count % size == 0 {
            count / size
        } else {
            count / size + 1
        };
        proof {
            lemma_chunk_mul_bounds(count as nat, rank as nat, size as nat);
        }
        let first = basic_count * rank;
        let last_unclamped = basic_count * (rank + 1);
        let last = if count < last_unclamped {
            count
        } else {
            last_unclamped
        };
        Division { first, last }
    }

    pub fn range_start(&self) -> (r: usize)
        ensures
            r == self.first,
    {
        self.first
    }

    pub fn range_end(&self) -> (r: usize)
        ensures
            r == self.last,
    {
        self.last
    }

    /// The range as a pair `(start, end)`, start inclusive, end exclusive.
    pub fn range(&self) -> (r: (usize, usize))
        ensures
            r.0 == self.first,
            r.1 == self.last,
    {
        (self.first, self.last)
    }

    pub open spec fn spec_first(&self) -> nat {
        self.first as nat
    }

    pub open spec fn spec_last(&self) -> nat {
        self.last as nat
    }

    /// Whether index `i` belongs to this worker's range.
    pub open spec fn contains(&self, i: nat) -> bool {
        self.first <= i < self.last
    }
}

/// The chunk products stay within `count + size * rank`-sized bounds, so the
/// multiplications in `Division::new` cannot overflow `usize`.
proof fn lemma_chunk_mul_bounds(count: nat, rank: nat, size: nat)
    requires
        rank < size,
    ensures
        spec_chunk(count, size) * rank <= spec_chunk(count, size) * (rank + 1),
        spec_chunk(count, size) * (rank + 1) <= spec_chunk(count, size) * size,
        spec_chunk(count, size) * size <= count + size,
{
    let c = spec_chunk(count, size);
    vstd::arithmetic::mul::lemma_mul_inequality(rank as int, (rank + 1) as int, c as int);
    vstd::arithmetic::mul::lemma_mul_inequality((rank + 1) as int, size as int, c as int);
    vstd::arithmetic::div_mod::lemma_fundamental_div_mod(count as int, size as int);
    assert(c * size <= count + size) by (nonlinear_arith)
        requires
            size > 0,
            c == spec_chunk(count, size),
            count == size * (count / size) + count % size,
            0 <= count % size < size,
    ;
}

/// The chunk covers the whole population: `size` chunks reach past `count`.
proof fn lemma_chunk_covers(count: nat, size: nat)
    requires
        size > 0,
    ensures
        spec_chunk(count, size) * size >= count,
{
    let c = spec_chunk(count, size);
    vstd::arithmetic::div_mod::lemma_fundamental_div_mod(count as int, size as int);
    assert(c * size >= count) by (nonlinear_arith)
        requires
            size > 0,
            c == spec_chunk(count, size),
            count == size * (count / size) + count % size,
            0 <= count % size < size,
    ;
}

/// The chunk covers the whole population, stated for callers outside
/// this module.
pub proof fn lemma_chunk_covers_pub(count: nat, size: nat)
    requires
        size > 0,
    ensures
        spec_chunk(count, size) * size >= count,
{
    lemma_chunk_covers(count, size);
}

/// Work division partitions `[0, count)`: every index below `count` falls in
/// the range of exactly one worker, and ranges of distinct workers are
/// disjoint (the range of a lower rank ends where the next one starts or
/// earlier).
pub proof fn lemma_division_partition(count: nat, size: nat, i: nat)
    requires
        size > 0,
        i < count,
    ensures
        exists|r: nat|
            r < size && #[trigger] spec_first(count, r, size) <= i < spec_last(count, r, size),
        forall|r1: nat, r2: nat|
            r1 < r2 < size ==> #[trigger] spec_last(count, r1, size) <= #[trigger] spec_first(
                count, r2, size),
{
    let c = spec_chunk(count, size);
    lemma_chunk_covers(count, size);
    assert(c > 0) by (nonlinear_arith)
        requires
            c * size >= count,
            count > i >= 0,
            size > 0,
    ;
    let r = i / c;
    vstd::arithmetic::div_mod::lemma_fundamental_div_mod(i as int, c as int);
    assert(c * r <= i < c * (r + 1)) by (nonlinear_arith)
        requires
            c > 0,
            i == c * (i / c) + i % c,
            0 <= i % c < c,
            r == i / c,
    ;
    assert(r < size) by (nonlinear_arith)
        requires
            c > 0,
            c * r <= i,
            i < count,
            count <= c * size,
    ;
    assert(spec_first(count, r, size) <= i < spec_last(count, r, size));
    assert forall|r1: nat, r2: nat| r1 < r2 < size implies spec_last(count, r1, size)
        <= spec_first(count, r2, size) by {
        vstd::arithmetic::mul::lemma_mul_inequality((r1 + 1) as int, r2 as int, c as int);
    }
}


/// Copy of `buf[start..end]`.
fn subvec(buf: &Vec<u8>, start: usize, end: usize) -> (r: Vec<u8>)
    requires
        start <= end <= buf.len(),
    ensures
        r@ == buf@.subrange(start as int, end as int),
{
    let mut r: Vec<u8> = Vec::new();
    let mut k: usize = start;
    while k < end
        invariant
            start <= k <= end <= buf.len(),
            r@ == buf@.subrange(start as int, k as int),
        decreases end - k,
    {
        r.push(buf[k]);
        proof {
            assert(r@ =~= buf@.subrange(start as int, k + 1));
        }
        k = k + 1;
    }
    r
}

/// Whether every worker's encoded payload fits the wire's length type.
pub open spec fn all_payloads_fit(sends: Seq<Seq<Option<stateful::Car>>>) -> bool {
    forall|i: int|
        0 <= i < sends.len() ==> (#[trigger] codec::enc_cars(sends[i])).len() <= WIRE_COUNT_LIMIT
}

/// The bytes the first `k` workers' encoded payloads take together.
pub open spec fn total_encoded_len(sends: Seq<Seq<Option<stateful::Car>>>, k: int) -> int
    decreases k,
{
    if k <= 0 {
        0
    } else {
        total_encoded_len(sends, k - 1) + codec::enc_cars(sends[k - 1]).len()
    }
}

/// Prefixes of the total payload length are monotone.
pub proof fn lemma_total_encoded_len_monotonic(
    sends: Seq<Seq<Option<stateful::Car>>>,
    k: int,
    m: int,
)
    requires
        0 <= k <= m,
    ensures
        0 <= total_encoded_len(sends, k) <= total_encoded_len(sends, m),
    decreases m,
{
    if m > 0 {
        if k <= m - 1 {
            lemma_total_encoded_len_monotonic(sends, k, m - 1);
        } else {
            lemma_total_encoded_len_monotonic(sends, k - 1, m - 1);
        }
    }
}

/// Variable-count all-gather of the per-worker vehicle lists, modelled in
/// memory: every worker's list is encoded, the byte counts are exchanged,
/// displacements are the prefix sums of the counts, the payloads are
/// concatenated, and every worker decodes all of them again.
///
/// Succeeds exactly when every encoded payload fits the wire's length
/// type (and the concatenated buffer fits in memory); the result then
/// holds, for every worker, the same list of all workers' values in rank
/// order.
pub fn all_gather_varcount(sends: &Vec<Vec<Option<stateful::Car>>>) -> (r: Result<
    Vec<Vec<Vec<Option<stateful::Car>>>>,
    CommunicationError,
>)
    ensures
        match r {
            Ok(gathered) => {
                &&& all_payloads_fit(sends@.map_values(|v: Vec<Option<stateful::Car>>| v@))
                &&& gathered.len() == sends.len()
                &&& forall|w: int, i: int|
                    0 <= w < sends.len() && 0 <= i < sends.len()
                        ==> (#[trigger] gathered[w][i])@ == sends[i]@
                &&& forall|w: int| 0 <= w < sends.len() ==> (#[trigger] gathered[w]).len()
                    == sends.len()
            },
            Err(e) => e == CommunicationError::IntegerConversion || e
                == CommunicationError::Serialization,
        },
        !all_payloads_fit(sends@.map_values(|v: Vec<Option<stateful::Car>>| v@)) ==> r is Err,
        all_payloads_fit(sends@.map_values(|v: Vec<Option<stateful::Car>>| v@))
            && total_encoded_len(
            sends@.map_values(|v: Vec<Option<stateful::Car>>| v@),
            sends.len() as int,
        ) <= usize::MAX ==> r is Ok,
{
    let ghost mapped = sends@.map_values(|v: Vec<Option<stateful::Car>>| v@);
    proof {
        assert(forall|i: int| 0 <= i < sends.len() ==> #[trigger] mapped[i] == sends[i]@);
    }
    let size = sends.len();
    // Serialize every worker's value and exchange the byte counts.
    let mut payloads: Vec<Vec<u8>> = Vec::new();
    let mut counts: Vec<u32> = Vec::new();
    let mut i: usize = 0;
    while i < size
        invariant
            i <= size == sends.len(),
            payloads.len() == i,
            counts.len() == i,
            forall|k: int|
                0 <= k < i ==> (#[trigger] payloads[k])@ == codec::enc_cars(sends[k]@),
            forall|k: int| 0 <= k < i ==> counts[k] == payloads[k]@.len(),
            forall|k: int| 0 <= k < i ==> (#[trigger] payloads[k])@.len() <= WIRE_COUNT_LIMIT,
        decreases size - i,
    {
        let bytes = codec::encode_cars(&sends[i]);
        if bytes.len() > WIRE_COUNT_LIMIT {
            proof {
                let ghost sendsv = sends@.map_values(|v: Vec<Option<stateful::Car>>| v@);
                assert(codec::enc_cars(sendsv[i as int]).len() > WIRE_COUNT_LIMIT);
                assert(!all_payloads_fit(sendsv));
            }
            return Err(CommunicationError::IntegerConversion);
        }
        counts.push(bytes.len() as u32);
        payloads.push(bytes);
        i = i + 1;
    }
    // Compute the per-worker displacements (prefix sums of the counts)
    // and lay the payloads out in one buffer.
    let mut displacements: Vec<usize> = Vec::new();
    let mut buffer: Vec<u8> = Vec::new();
    let mut j: usize = 0;
    while j < size
        invariant
            j <= size == sends.len(),
            mapped == sends@.map_values(|v: Vec<Option<stateful::Car>>| v@),
            forall|t: int| 0 <= t < sends.len() ==> #[trigger] mapped[t] == sends[t]@,
            buffer.len() == total_encoded_len(mapped, j as int),
            payloads.len() == size,
            counts.len() == size,
            displacements.len() == j,
            forall|k: int|
                0 <= k < size ==> (#[trigger] payloads[k])@ == codec::enc_cars(sends[k]@),
            forall|k: int| 0 <= k < size ==> counts[k] == payloads[k]@.len(),
            forall|k: int| 0 <= k < size ==> (#[trigger] payloads[k])@.len() <= WIRE_COUNT_LIMIT,
            forall|k: int|
                0 <= k < j ==> #[trigger] displacements[k] + counts[k] <= buffer.len(),
            forall|k: int|
                0 <= k < j ==> buffer@.subrange(
                    #[trigger] displacements[k] as int,
                    displacements[k] + counts[k],
                ) == payloads[k]@,
        decreases size - j,
    {
        let d = buffer.len();
        let payload = &payloads[j];
        if usize::MAX - buffer.len() < payload.len() {
            proof {
                lemma_total_encoded_len_monotonic(mapped, j + 1, sends.len() as int);
            }
            return Err(CommunicationError::IntegerConversion);
        }
        let ghost buffer_before = buffer@;
        let mut k: usize = 0;
        while k < payload.len()
            invariant
                k <= payload.len(),
                buffer@ == buffer_before + payload@.subrange(0, k as int),
                d == buffer_before.len(),
                buffer_before.len() + payload.len() <= usize::MAX,
            decreases payload.len() - k,
        {
            buffer.push(payload[k]);
            proof {
                assert(buffer@ =~= buffer_before + payload@.subrange(0, k + 1));
            }
            k = k + 1;
        }
        proof {
            assert(payload@.subrange(0, payload@.len() as int) =~= payload@);
            assert(buffer@.subrange(d as int, d + counts[j as int]) =~= payloads[j as int]@);
            assert forall|t: int|
                0 <= t < j implies buffer@.subrange(
                    #[trigger] displacements[t] as int,
                    displacements[t] + counts[t],
                ) == payloads[t]@ by {
                assert(buffer@.subrange(displacements[t] as int, displacements[t] + counts[t])
                    =~= buffer_before.subrange(
                    displacements[t] as int,
                    displacements[t] + counts[t],
                ));
            }
        }
        displacements.push(d);
        j = j + 1;
    }
    // Every worker now decodes each worker's slice of the buffer.
    let mut gathered: Vec<Vec<Vec<Option<stateful::Car>>>> = Vec::new();
    let mut w: usize = 0;
    while w < size
        invariant
            w <= size == sends.len(),
            payloads.len() == size,
            counts.len() == size,
            displacements.len() == size,
            forall|k: int|
                0 <= k < size ==> (#[trigger] payloads[k])@ == codec::enc_cars(sends[k]@),
            forall|k: int| 0 <= k < size ==> counts[k] == payloads[k]@.len(),
            forall|k: int| 0 <= k < size ==> (#[trigger] payloads[k])@.len() <= WIRE_COUNT_LIMIT,
            forall|k: int|
                0 <= k < size ==> #[trigger] displacements[k] + counts[k] <= buffer.len(),
            forall|k: int|
                0 <= k < size ==> buffer@.subrange(
                    #[trigger] displacements[k] as int,
                    displacements[k] + counts[k],
                ) == payloads[k]@,
            gathered.len() == w,
            forall|a: int, b: int|
                0 <= a < w && 0 <= b < size ==> (#[trigger] gathered[a][b])@ == sends[b]@,
            forall|a: int| 0 <= a < w ==> (#[trigger] gathered[a]).len() == size,
        decreases size - w,
    {
        let mut received: Vec<Vec<Option<stateful::Car>>> = Vec::new();
        let mut b: usize = 0;
        while b < size
            invariant
                b <= size == sends.len(),
                payloads.len() == size,
                counts.len() == size,
                displacements.len() == size,
                forall|k: int|
                    0 <= k < size ==> (#[trigger] payloads[k])@ == codec::enc_cars(sends[k]@),
                forall|k: int| 0 <= k < size ==> counts[k] == payloads[k]@.len(),
                forall|k: int|
                    0 <= k < size ==> #[trigger] displacements[k] + counts[k] <= buffer.len(),
                forall|k: int|
                    0 <= k < size ==> buffer@.subrange(
                        #[trigger] displacements[k] as int,
                        displacements[k] + counts[k],
                    ) == payloads[k]@,
                received.len() == b,
                forall|t: int| 0 <= t < b ==> (#[trigger] received[t])@ == sends[t]@,
            decreases size - b,
        {
            let d = displacements[b];
            let c = counts[b] as usize;
            let len_b = sends[b].len();
            let piece = subvec(&buffer, d, d + c);
            proof {
                assert(sends[b as int]@.len() == len_b);
                codec::lemma_cars_round_trip(sends[b as int]@, Seq::empty());
                assert(codec::enc_cars(sends[b as int]@) + Seq::<u8>::empty() =~= codec::enc_cars(
                    sends[b as int]@,
                ));
                assert(piece@ == codec::enc_cars(sends[b as int]@));
            }
            let decoded = match codec::decode_cars(&piece) {
                None => {
                    proof {
                        assert(false);
                    }
                    return Err(CommunicationError::Serialization);
                },
                Some(v) => v,
            };
            received.push(decoded);
            b = b + 1;
        }
        gathered.push(received);
        w = w + 1;
    }
    proof {
        let ghost sendsv = sends@.map_values(|v: Vec<Option<stateful::Car>>| v@);
        assert forall|k: int|
            0 <= k < sendsv.len() implies (#[trigger] codec::enc_cars(sendsv[k])).len()
            <= WIRE_COUNT_LIMIT by {
            assert(sendsv[k] == sends[k]@);
            assert(payloads[k]@.len() <= WIRE_COUNT_LIMIT);
        }
    }
    Ok(gathered)
}

/// Broadcast of the stateful city, modelled in memory: the coordinator
/// encodes its city, every worker receives the same bytes and decodes
/// them.  Every worker observes a city with the same board shape and the
/// same intersection states as the coordinator's.
pub fn broadcast_city(city: &stateful::City, size: usize) -> (r: Result<
    Vec<stateful::City>,
    CommunicationError,
>)
    requires
        city.board.wf(),
    ensures
        match r {
            Ok(received) => {
                &&& received.len() == size
                &&& forall|w: int|
                    0 <= w < size ==> (#[trigger] received[w]).board.intersections.shape
                        == city.board.intersections.shape
                &&& forall|w: int|
                    0 <= w < size ==> (#[trigger] received[w]).board.intersections.storage@
                        == city.board.intersections.storage@
                &&& forall|w: int| 0 <= w < size ==> (#[trigger] received[w]).board.wf()
            },
            Err(_) => false,
        },
{
    let bytes = codec::encode_city(city);
    proof {
        codec::lemma_city_round_trip(city, Seq::empty());
        assert(codec::enc_city(city) + Seq::<u8>::empty() =~= codec::enc_city(city));
    }
    let mut received: Vec<stateful::City> = Vec::new();
    let mut w: usize = 0;
    while w < size
        invariant
            w <= size,
            bytes@ == codec::enc_city(city),
            city.board.wf(),
            codec::dec_city_raw(bytes@) == Some(
                (
                    (city.board.intersections.shape.0, city.board.intersections.shape.1),
                    city.board.intersections.storage@,
                    codec::enc_city(city).len() as int,
                ),
            ),
            received.len() == w,
            forall|t: int|
                0 <= t < w ==> (#[trigger] received[t]).board.intersections.shape
                    == city.board.intersections.shape,
            forall|t: int|
                0 <= t < w ==> (#[trigger] received[t]).board.intersections.storage@
                    == city.board.intersections.storage@,
            forall|t: int| 0 <= t < w ==> (#[trigger] received[t]).board.wf(),
        decreases size - w,
    {
        let c = match codec::decode_city(&bytes) {
            None => {
                return Err(CommunicationError::Serialization);
            },
            Some(c) => c,
        };
        received.push(c);
        w = w + 1;
    }
    Ok(received)
}

/// Broadcast of the tick length (or the end-of-run sentinel), modelled in
/// memory: every worker observes exactly the coordinator's value.
pub fn broadcast_dt(dt: &Option<i64>, size: usize) -> (r: Result<
    Vec<Option<i64>>,
    CommunicationError,
>)
    ensures
        match r {
            Ok(received) => received.len() == size && forall|w: int|
                0 <= w < size ==> #[trigger] received[w] == *dt,
            Err(_) => false,
        },
{
    let bytes = codec::encode_opt_dt(dt);
    proof {
        codec::lemma_opt_dt_round_trip(*dt, Seq::empty());
        assert(codec::enc_opt_dt(*dt) + Seq::<u8>::empty() =~= codec::enc_opt_dt(*dt));
    }
    let mut received: Vec<Option<i64>> = Vec::new();
    let mut w: usize = 0;
    while w < size
        invariant
            w <= size,
            bytes@ == codec::enc_opt_dt(*dt),
            codec::dec_opt_dt(bytes@) == Some((*dt, codec::enc_opt_dt(*dt).len() as int)),
            received.len() == w,
            forall|t: int| 0 <= t < w ==> #[trigger] received[t] == *dt,
        decreases size - w,
    {
        let v = match codec::decode_opt_dt(&bytes) {
            None => {
                return Err(CommunicationError::Serialization);
            },
            Some(v) => v,
        };
        received.push(v);
        w = w + 1;
    }
    Ok(received)
}

} // verus!
