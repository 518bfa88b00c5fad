//! Aggregation: group the raw samples by command name, sum the resident
//! bytes per name, and convert each total to megabytes by truncating
//! division.

use vstd::prelude::*;

use crate::model::AggregateEntry;
use crate::model::ProcessSample;
use crate::model::BYTES_PER_MB;
use crate::model::has_qualifying;
use crate::model::is_aggregation_of;
use crate::model::lemma_sum_bytes_for_le_total;
use crate::model::lemma_sum_bytes_for_take_step;
use crate::model::lemma_total_bytes_take_le;
use crate::model::lemma_total_bytes_take_step;
use crate::model::nonneg_bytes;
use crate::model::sum_bytes_for;
use crate::model::total_bytes;
use crate::model::views_of_entries;
use crate::model::views_of_samples;

verus! {

/// A running byte total for one command name, before the megabyte
/// conversion.
struct ByteTotal {
    command_name: String,
    total_bytes: i64,
}

/// Convert a byte count to whole megabytes, truncating toward zero (a
/// floor for the non-negative counts aggregation produces).
pub fn bytes_to_mb(memory: &i64) -> (r: i64)
    requires
        0 <= *memory,
    ensures
        r as int == *memory as int / (BYTES_PER_MB as int),
        0 <= r,
{
    ((*memory as u64) / (BYTES_PER_MB as u64)) as i64
}

/// Index of the accumulator entry with the given name, if any.
fn find_by_name(acc: &Vec<ByteTotal>, name: &String) -> (r: Option<usize>)
    ensures
        match r {
            Some(i) => 0 <= i < acc@.len() && acc@[i as int].command_name@ == name@,
            None => forall|j: int| 0 <= j < acc@.len() ==> (#[trigger] acc@[j]).command_name@ != name@,
        },
{
    let mut i: usize = 0;
    while i < acc.len()
        invariant
            0 <= i <= acc@.len(),
            forall|j: int| 0 <= j < i ==> (#[trigger] acc@[j]).command_name@ != name@,
        decreases acc@.len() - i,
    {
        if acc[i].command_name == *name {
            return Some(i);
        }
        i = i + 1;
    }
    None
}

/// Group the samples by command name and sum their resident bytes, skipping
/// zero-byte samples, then floor-divide each per-name total into megabytes.
/// The result has one entry per command name that occurs with non-zero
/// resident bytes; its value is `floor(sum of matching bytes / 1048576)`.
pub fn aggregate(samples: &Vec<ProcessSample>) -> (r: Vec<AggregateEntry>)
    requires
        nonneg_bytes(views_of_samples(samples@)),
        total_bytes(views_of_samples(samples@)) <= i64::MAX,
    ensures
        is_aggregation_of(views_of_entries(r@), views_of_samples(samples@)),
        forall|j: int| 0 <= j < r@.len() ==> 0 <= (#[trigger] r@[j]).resident_megabytes,
{
    let ghost sv = views_of_samples(samples@);
    let mut acc: Vec<ByteTotal> = Vec::new();
    let mut i: usize = 0;
    while i < samples.len()
        invariant
            sv == views_of_samples(samples@),
            nonneg_bytes(sv),
            total_bytes(sv) <= i64::MAX,
            0 <= i <= samples@.len(),
            sv.len() == samples@.len(),
            forall|j: int, k: int|
                0 <= j < acc@.len() && 0 <= k < acc@.len() && j != k ==> (#[trigger] acc@[j]).command_name@
                    != (#[trigger] acc@[k]).command_name@,
            forall|j: int|
                0 <= j < acc@.len() ==> (#[trigger] acc@[j]).total_bytes as int == sum_bytes_for(
                    sv.take(i as int),
                    acc@[j].command_name@,
                ),
            forall|j: int|
                0 <= j < acc@.len() ==> has_qualifying(
                    sv.take(i as int),
                    (#[trigger] acc@[j]).command_name@,
                ),
            forall|k: int|
                0 <= k < i && (#[trigger] sv[k]).1 != 0 ==> exists|j: int|
                    0 <= j < acc@.len() && (#[trigger] acc@[j]).command_name@ == sv[k].0,
        decreases samples@.len() - i,
    {
        let ghost prefix = sv.take(i as int);
        let ghost cur = sv[i as int];
        let s = &samples[i];
        proof {
            assert(sv[i as int] == samples@[i as int]@);
            lemma_total_bytes_take_step(sv, i as int);
            lemma_total_bytes_take_le(sv, i + 1);
        }
        let ghost acc_before = acc@;
        if s.resident_bytes != 0 {
            match find_by_name(&acc, &s.command_name) {
                Some(j) => {
                    proof {
                        lemma_sum_bytes_for_le_total(prefix, acc@[j as int].command_name@);
                        lemma_total_bytes_take_le(sv, i as int);
                        lemma_sum_bytes_for_take_step(sv, acc@[j as int].command_name@, i as int);
                    }
                    let nb = acc[j].total_bytes + s.resident_bytes;
                    acc[j].total_bytes = nb;
                    proof {
                        assert(forall|w: int|
                            0 <= w < acc@.len() ==> (#[trigger] acc@[w]).command_name@
                                == acc_before[w].command_name@);
                        assert forall|k: int|
                            0 <= k < i + 1 && (#[trigger] sv[k]).1 != 0 implies exists|w: int|
                            0 <= w < acc@.len() && (#[trigger] acc@[w]).command_name@ == sv[k].0 by {
                            if k < i {
                                let w0 = choose|w: int|
                                    0 <= w < acc_before.len() && (#[trigger] acc_before[w]).command_name@
                                        == sv[k].0;
                                assert(acc@[w0].command_name@ == sv[k].0);
                            } else {
                                assert(acc@[j as int].command_name@ == sv[k].0);
                            }
                        }
                        assert(forall|k: int|
                            0 <= k < acc@.len() && k != j ==> sum_bytes_for(
                                sv.take(i + 1),
                                (#[trigger] acc@[k]).command_name@,
                            ) == sum_bytes_for(prefix, acc@[k].command_name@)) by {
                            assert forall|k: int|
                                0 <= k < acc@.len() && k != j implies sum_bytes_for(
                                sv.take(i + 1),
                                (#[trigger] acc@[k]).command_name@,
                            ) == sum_bytes_for(prefix, acc@[k].command_name@) by {
                                lemma_sum_bytes_for_take_step(sv, acc@[k].command_name@, i as int);
                            }
                        }
                        assert(forall|k: int|
                            0 <= k < acc@.len() ==> has_qualifying(
                                sv.take(i + 1),
                                (#[trigger] acc@[k]).command_name@,
                            )) by {
                            assert forall|k: int| 0 <= k < acc@.len() implies has_qualifying(
                                sv.take(i + 1),
                                (#[trigger] acc@[k]).command_name@,
                            ) by {
                                let witness = choose|w: int|
                                    0 <= w < prefix.len() && (#[trigger] prefix[w]).0
                                        == acc@[k].command_name@ && prefix[w].1 != 0;
                                assert(sv.take(i + 1)[witness] == prefix[witness]);
                            }
                        }
                    }
                },
                None => {
                    let entry = ByteTotal {
                        command_name: s.command_name.clone(),
                        total_bytes: s.resident_bytes,
                    };
                    acc.push(entry);
                    proof {
                        assert forall|w: int|
                            0 <= w < prefix.len() && (#[trigger] prefix[w]).0
                            == cur.0 implies prefix[w].1 == 0 by {
                            assert(prefix[w] == sv[w]);
                        }
                        lemma_sum_bytes_for_zero(prefix, cur.0);
                        assert forall|k: int|
                            0 <= k < i + 1 && (#[trigger] sv[k]).1 != 0 implies exists|w: int|
                            0 <= w < acc@.len() && (#[trigger] acc@[w]).command_name@ == sv[k].0 by {
                            if k < i {
                                let w0 = choose|w: int|
                                    0 <= w < acc_before.len() && (#[trigger] acc_before[w]).command_name@
                                        == sv[k].0;
                                assert(acc@[w0] == acc_before[w0]);
                                assert(acc@[w0].command_name@ == sv[k].0);
                            } else {
                                assert(acc@[acc@.len() - 1].command_name@ == sv[k].0);
                            }
                        }
                        assert forall|k: int| 0 <= k < acc@.len() implies (
                        #[trigger] acc@[k]).total_bytes as int == sum_bytes_for(
                            sv.take(i + 1),
                            acc@[k].command_name@,
                        ) by {
                            lemma_sum_bytes_for_take_step(sv, acc@[k].command_name@, i as int);
                            if k < acc@.len() - 1 {
                                assert(acc@[k].command_name@ != sv[i as int].0);
                            } else {
                                assert(acc@[k].command_name@ == sv[i as int].0);
                                assert(sum_bytes_for(prefix, acc@[k].command_name@) == 0);
                            }
                        }
                        assert forall|k: int| 0 <= k < acc@.len() implies has_qualifying(
                            sv.take(i + 1),
                            (#[trigger] acc@[k]).command_name@,
                        ) by {
                            if k < acc@.len() - 1 {
                                let witness = choose|w: int|
                                    0 <= w < prefix.len() && (#[trigger] prefix[w]).0
                                        == acc@[k].command_name@ && prefix[w].1 != 0;
                                assert(sv.take(i + 1)[witness] == prefix[witness]);
                            } else {
                                assert(sv.take(i + 1)[i as int] == sv[i as int]);
                            }
                        }
                    }
                },
            }
        } else {
            proof {
                assert forall|k: int| 0 <= k < acc@.len() implies (
                #[trigger] acc@[k]).total_bytes as int == sum_bytes_for(
                    sv.take(i + 1),
                    acc@[k].command_name@,
                ) by {
                    lemma_sum_bytes_for_take_step(sv, acc@[k].command_name@, i as int);
                }
                assert forall|k: int| 0 <= k < acc@.len() implies has_qualifying(
                    sv.take(i + 1),
                    (#[trigger] acc@[k]).command_name@,
                ) by {
                    let witness = choose|w: int|
                        0 <= w < prefix.len() && (#[trigger] prefix[w]).0 == acc@[k].command_name@
                            && prefix[w].1 != 0;
                    assert(sv.take(i + 1)[witness] == prefix[witness]);
                }
            }
        }
        i = i + 1;
    }
    proof {
        assert(sv.take(samples@.len() as int) =~= sv);
    }
    let mut result: Vec<AggregateEntry> = Vec::new();
    let mut j: usize = 0;
    while j < acc.len()
        invariant
            sv == views_of_samples(samples@),
            nonneg_bytes(sv),
            forall|k: int, l: int|
                0 <= k < acc@.len() && 0 <= l < acc@.len() && k != l ==> (#[trigger] acc@[k]).command_name@
                    != (#[trigger] acc@[l]).command_name@,
            forall|k: int|
                0 <= k < acc@.len() ==> (#[trigger] acc@[k]).total_bytes as int == sum_bytes_for(
                    sv,
                    acc@[k].command_name@,
                ),
            forall|k: int|
                0 <= k < acc@.len() ==> has_qualifying(sv, (#[trigger] acc@[k]).command_name@),
            forall|name: Seq<char>|
                #[trigger] has_qualifying(sv, name) ==> exists|k: int|
                    0 <= k < acc@.len() && (#[trigger] acc@[k]).command_name@ == name,
            0 <= j <= acc@.len(),
            result@.len() == j,
            forall|k: int|
                0 <= k < j ==> (#[trigger] result@[k]).command_name@ == acc@[k].command_name@,
            forall|k: int|
                0 <= k < j ==> (#[trigger] result@[k]).resident_megabytes as int == sum_bytes_for(
                    sv,
                    acc@[k].command_name@,
                ) / (BYTES_PER_MB as int),
            forall|k: int| 0 <= k < j ==> 0 <= (#[trigger] result@[k]).resident_megabytes,
        decreases acc@.len() - j,
    {
        proof {
            lemma_sum_bytes_for_le_total(sv, acc@[j as int].command_name@);
        }
        let mb = bytes_to_mb(&acc[j].total_bytes);
        let entry = AggregateEntry {
            command_name: acc[j].command_name.clone(),
            resident_megabytes: mb,
        };
        result.push(entry);
        j = j + 1;
    }
    proof {
        let ev = views_of_entries(result@);
        assert forall|k: int| 0 <= k < ev.len() implies has_qualifying(sv, (#[trigger] ev[k]).0)
            && ev[k].1 == sum_bytes_for(sv, ev[k].0) / (BYTES_PER_MB as int) by {
            assert(ev[k] == result@[k]@);
            assert(result@[k].command_name@ == acc@[k].command_name@);
        }
        assert forall|name: Seq<char>| #[trigger]
            has_qualifying(sv, name) implies exists|k: int|
            0 <= k < ev.len() && (#[trigger] ev[k]).0 == name by {
            let k = choose|k: int| 0 <= k < acc@.len() && (#[trigger] acc@[k]).command_name@ == name;
            assert(ev[k] == result@[k]@);
            assert(ev[k].0 == name);
        }
        assert forall|k: int, l: int|
            0 <= k < ev.len() && 0 <= l < ev.len() && k != l implies (#[trigger] ev[k]).0 != (
        #[trigger] ev[l]).0 by {
            assert(ev[k] == result@[k]@ && ev[l] == result@[l]@);
        }
    }
    result
}

/// A name whose matching samples all carry zero bytes sums to zero.
proof fn lemma_sum_bytes_for_zero(samples: Seq<(Seq<char>, int)>, name: Seq<char>)
    requires
        forall|i: int|
            0 <= i < samples.len() && (#[trigger] samples[i]).0 == name ==> samples[i].1 == 0,
    ensures
        sum_bytes_for(samples, name) == 0,
    decreases samples.len(),
{
    if samples.len() > 0 {
        assert(forall|i: int|
            0 <= i < samples.len() - 1 ==> samples.drop_last()[i] == samples[i]);
        lemma_sum_bytes_for_zero(samples.drop_last(), name);
    }
}

} // verus!
