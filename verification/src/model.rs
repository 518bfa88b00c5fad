//! Data model: raw per-process samples, aggregated per-command entries, and
//! the mathematical statement of what a correct aggregation is.

use vstd::prelude::*;

verus! {

/// Bytes per megabyte: the divisor for the byte-to-megabyte conversion.
pub const BYTES_PER_MB: i64 = 1048576;

/// One live process as observed in the host's process table: its command
/// name and its resident set size in bytes. Samples with zero resident
/// bytes are excluded from aggregation.
pub struct ProcessSample {
    pub command_name: String,
    pub resident_bytes: i64,
}

impl View for ProcessSample {
    type V = (Seq<char>, int);

    open spec fn view(&self) -> (Seq<char>, int) {
        (self.command_name@, self.resident_bytes as int)
    }
}

/// One distinct command name with the megabyte total of all its processes'
/// resident bytes.
pub struct AggregateEntry {
    pub command_name: String,
    pub resident_megabytes: i64,
}

impl View for AggregateEntry {
    type V = (Seq<char>, int);

    open spec fn view(&self) -> (Seq<char>, int) {
        (self.command_name@, self.resident_megabytes as int)
    }
}

/// The mathematical view of a sample vector: a sequence of
/// (command name, resident bytes) pairs.
pub open spec fn views_of_samples(s: Seq<ProcessSample>) -> Seq<(Seq<char>, int)> {
    s.map_values(|p: ProcessSample| p@)
}

/// The mathematical view of an entry vector: a sequence of
/// (command name, resident megabytes) pairs.
pub open spec fn views_of_entries(s: Seq<AggregateEntry>) -> Seq<(Seq<char>, int)> {
    s.map_values(|e: AggregateEntry| e@)
}

/// All byte counts are non-negative.
pub open spec fn nonneg_bytes(samples: Seq<(Seq<char>, int)>) -> bool {
    forall|i: int| 0 <= i < samples.len() ==> 0 <= (#[trigger] samples[i]).1
}

/// Sum of the resident bytes of every sample whose command name is `name`.
pub open spec fn sum_bytes_for(samples: Seq<(Seq<char>, int)>, name: Seq<char>) -> int
    decreases samples.len(),
{
    if samples.len() == 0 {
        0
    } else {
        sum_bytes_for(samples.drop_last(), name) + if samples.last().0 == name {
            samples.last().1
        } else {
            0
        }
    }
}

/// Sum of the resident bytes of all samples.
pub open spec fn total_bytes(samples: Seq<(Seq<char>, int)>) -> int
    decreases samples.len(),
{
    if samples.len() == 0 {
        0
    } else {
        total_bytes(samples.drop_last()) + samples.last().1
    }
}

/// Some sample has command name `name` and non-zero resident bytes.
pub open spec fn has_qualifying(samples: Seq<(Seq<char>, int)>, name: Seq<char>) -> bool {
    exists|i: int| 0 <= i < samples.len() && (#[trigger] samples[i]).0 == name && samples[i].1 != 0
}

/// Some sample has non-zero resident bytes.
pub open spec fn any_qualifying(samples: Seq<(Seq<char>, int)>) -> bool {
    exists|i: int| 0 <= i < samples.len() && (#[trigger] samples[i]).1 != 0
}

/// `entries` is exactly the aggregation of `samples`: one entry per command
/// name that occurs with non-zero resident bytes, holding the byte total of
/// all samples of that name floor-divided into megabytes.
pub open spec fn is_aggregation_of(
    entries: Seq<(Seq<char>, int)>,
    samples: Seq<(Seq<char>, int)>,
) -> bool {
    &&& forall|j: int|
        0 <= j < entries.len() ==> has_qualifying(samples, (#[trigger] entries[j]).0)
    &&& forall|j: int|
        0 <= j < entries.len() ==> (#[trigger] entries[j]).1 == sum_bytes_for(
            samples,
            entries[j].0,
        ) / (BYTES_PER_MB as int)
    &&& forall|name: Seq<char>|
        #[trigger] has_qualifying(samples, name) ==> exists|j: int|
            0 <= j < entries.len() && (#[trigger] entries[j]).0 == name
    &&& forall|j: int, k: int|
        0 <= j < entries.len() && 0 <= k < entries.len() && j != k ==> (#[trigger] entries[j]).0
            != (#[trigger] entries[k]).0
}

/// A zero-RSS sample contributes nothing: appending a sample with zero
/// resident bytes changes neither any per-name byte sum nor which names
/// qualify, so exactly the same entry sets aggregate the extended samples.
pub proof fn lemma_zero_sample_contributes_nothing(
    entries: Seq<(Seq<char>, int)>,
    samples: Seq<(Seq<char>, int)>,
    name: Seq<char>,
)
    ensures
        is_aggregation_of(entries, samples.push((name, 0int))) <==> is_aggregation_of(
            entries,
            samples,
        ),
{
    let ext = samples.push((name, 0int));
    assert forall|n: Seq<char>| #[trigger]
        sum_bytes_for(ext, n) == sum_bytes_for(samples, n) by {
        assert(ext.drop_last() =~= samples);
    }
    assert forall|n: Seq<char>| #[trigger]
        has_qualifying(ext, n) == has_qualifying(samples, n) by {
        if has_qualifying(ext, n) {
            let i = choose|i: int|
                0 <= i < ext.len() && (#[trigger] ext[i]).0 == n && ext[i].1 != 0;
            assert(i < samples.len());
            assert(samples[i] == ext[i]);
        }
        if has_qualifying(samples, n) {
            let i = choose|i: int|
                0 <= i < samples.len() && (#[trigger] samples[i]).0 == n && samples[i].1 != 0;
            assert(ext[i] == samples[i]);
        }
    }
    if is_aggregation_of(entries, samples) {
        assert forall|j: int| 0 <= j < entries.len() implies has_qualifying(
            ext,
            (#[trigger] entries[j]).0,
        ) by {
            assert(has_qualifying(ext, entries[j].0) == has_qualifying(samples, entries[j].0));
        }
        assert forall|j: int| 0 <= j < entries.len() implies (#[trigger] entries[j]).1
            == sum_bytes_for(ext, entries[j].0) / (BYTES_PER_MB as int) by {
            assert(sum_bytes_for(ext, entries[j].0) == sum_bytes_for(samples, entries[j].0));
        }
        assert forall|n: Seq<char>| #[trigger] has_qualifying(ext, n) implies exists|j: int|
            0 <= j < entries.len() && (#[trigger] entries[j]).0 == n by {
            assert(has_qualifying(samples, n));
        }
        assert(is_aggregation_of(entries, ext));
    }
    if is_aggregation_of(entries, ext) {
        assert forall|j: int| 0 <= j < entries.len() implies has_qualifying(
            samples,
            (#[trigger] entries[j]).0,
        ) by {
            assert(has_qualifying(ext, entries[j].0) == has_qualifying(samples, entries[j].0));
        }
        assert forall|j: int| 0 <= j < entries.len() implies (#[trigger] entries[j]).1
            == sum_bytes_for(samples, entries[j].0) / (BYTES_PER_MB as int) by {
            assert(sum_bytes_for(ext, entries[j].0) == sum_bytes_for(samples, entries[j].0));
        }
        assert forall|n: Seq<char>| #[trigger] has_qualifying(samples, n) implies exists|j: int|
            0 <= j < entries.len() && (#[trigger] entries[j]).0 == n by {
            assert(has_qualifying(ext, n));
        }
        assert(is_aggregation_of(entries, samples));
    }
}

pub proof fn lemma_sum_bytes_for_take_step(samples: Seq<(Seq<char>, int)>, name: Seq<char>, i: int)
    requires
        0 <= i < samples.len(),
    ensures
        sum_bytes_for(samples.take(i + 1), name) == sum_bytes_for(samples.take(i), name) + if (
        samples[i]).0 == name {
            samples[i].1
        } else {
            0
        },
{
    assert(samples.take(i + 1).drop_last() =~= samples.take(i));
    assert(samples.take(i + 1).last() == samples[i]);
}

pub proof fn lemma_total_bytes_take_step(samples: Seq<(Seq<char>, int)>, i: int)
    requires
        0 <= i < samples.len(),
    ensures
        total_bytes(samples.take(i + 1)) == total_bytes(samples.take(i)) + samples[i].1,
{
    assert(samples.take(i + 1).drop_last() =~= samples.take(i));
    assert(samples.take(i + 1).last() == samples[i]);
}

/// With non-negative byte counts, a per-name sum lies between zero and the
/// grand total.
pub proof fn lemma_sum_bytes_for_le_total(samples: Seq<(Seq<char>, int)>, name: Seq<char>)
    requires
        nonneg_bytes(samples),
    ensures
        0 <= sum_bytes_for(samples, name) <= total_bytes(samples),
    decreases samples.len(),
{
    if samples.len() > 0 {
        assert(nonneg_bytes(samples.drop_last())) by {
            assert(forall|i: int|
                0 <= i < samples.len() - 1 ==> samples.drop_last()[i] == samples[i]);
        }
        lemma_sum_bytes_for_le_total(samples.drop_last(), name);
    }
}

/// With non-negative byte counts, the total over a prefix is at most the
/// total over the whole sequence.
pub proof fn lemma_total_bytes_take_le(samples: Seq<(Seq<char>, int)>, i: int)
    requires
        nonneg_bytes(samples),
        0 <= i <= samples.len(),
    ensures
        0 <= total_bytes(samples.take(i)) <= total_bytes(samples),
    decreases samples.len() - i,
{
    if i == samples.len() {
        assert(samples.take(i) =~= samples);
        lemma_total_bytes_nonneg(samples);
    } else {
        lemma_total_bytes_take_step(samples, i);
        lemma_total_bytes_take_le(samples, i + 1);
        assert(nonneg_bytes(samples.take(i))) by {
            assert(forall|k: int| 0 <= k < i ==> samples.take(i)[k] == samples[k]);
        }
        lemma_total_bytes_nonneg(samples.take(i));
    }
}

pub proof fn lemma_total_bytes_nonneg(samples: Seq<(Seq<char>, int)>)
    requires
        nonneg_bytes(samples),
    ensures
        0 <= total_bytes(samples),
    decreases samples.len(),
{
    if samples.len() > 0 {
        assert(nonneg_bytes(samples.drop_last())) by {
            assert(forall|i: int|
                0 <= i < samples.len() - 1 ==> samples.drop_last()[i] == samples[i]);
        }
        lemma_total_bytes_nonneg(samples.drop_last());
    }
}

} // verus!
