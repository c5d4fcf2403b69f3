use vstd::prelude::*;
use vstd::string::StringExecFns;
use crate::order::IdKeyed;
use crate::order::is_prefix_of;
use crate::order::str_starts_with;
use crate::order::str_eq;
use crate::order::sort_by_id;
use crate::order::sort_vec_by_id;
use crate::order::sorted_by_id;
use crate::order::distinct_ids;
use crate::order::lemma_sort_sorted;
use crate::order::lemma_sort_multiset;
use crate::order::lemma_sort_distinct;
use crate::order::lemma_sort_len;
use crate::order::lemma_sorted_unique_by_id;
use crate::order::ids_of;
use crate::order::lemma_ids_multiset;
use crate::order::lemma_sorted_same_ids;

verus! {

/// Static description of one running container, in the shape the
/// aggregation works on; the same fields as `crate::podman::ContainerInfo`.
#[derive(Debug)]
pub struct PodmanContainerInfo {
    pub image: String,
    pub id: String,
    pub names: Vec<String>,
    pub started_at: u64,
    pub state: String,
}

/// One resource-usage sample, in the shape the aggregation works on.
#[derive(Debug)]
pub struct PodmanContainerStats {
    pub id: String,
    pub cpu_percent: String,
    pub mem_percent: String,
    pub mem_usage: String,
}

impl IdKeyed for PodmanContainerInfo {
    open spec fn id_key(&self) -> Seq<char> {
        self.id@
    }

    fn id_str(&self) -> (r: &str) {
        self.id.as_str()
    }
}

impl IdKeyed for PodmanContainerStats {
    open spec fn id_key(&self) -> Seq<char> {
        self.id@
    }

    fn id_str(&self) -> (r: &str) {
        self.id.as_str()
    }
}

/// A merge found a usage sample whose identifier is not a prefix of the
/// canonical identifier it was paired with: the two sources disagree about
/// which containers exist.
#[derive(Clone, Copy, Debug, PartialEq, Eq, Structural)]
pub enum MergeError {
    CorrelationFault,
}

/// How many pairs a positional join of the two lists produces: the length
/// of the shorter one.
pub open spec fn pair_count(
    si: Seq<PodmanContainerInfo>,
    ss: Seq<PodmanContainerStats>,
) -> int {
    if si.len() <= ss.len() {
        si.len() as int
    } else {
        ss.len() as int
    }
}

/// Every positional pair of the two (already sorted) lists correlates: the
/// sample's identifier is a prefix of the canonical one.
pub open spec fn correlated(si: Seq<PodmanContainerInfo>, ss: Seq<PodmanContainerStats>) -> bool {
    forall|k: int|
        0 <= k < pair_count(si, ss) ==> is_prefix_of((#[trigger] ss[k]).id@, si[k].id@)
}

/// The merged record of one metadata record and one usage sample.
pub open spec fn merged_of(
    a: PodmanContainerInfo,
    b: PodmanContainerStats,
) -> crate::services::ContainerInfo {
    crate::services::ContainerInfo {
        image: a.image,
        id: a.id,
        names: a.names,
        started_at: a.started_at,
        state: a.state,
        cpu_percent: b.cpu_percent,
        mem_percent: b.mem_percent,
        mem_usage: b.mem_usage,
    }
}

/// The positional join of two sorted lists, one merged record per pair.
pub open spec fn merge_pairs(
    si: Seq<PodmanContainerInfo>,
    ss: Seq<PodmanContainerStats>,
) -> Seq<crate::services::ContainerInfo> {
    Seq::new(pair_count(si, ss) as nat, |k: int| merged_of(si[k], ss[k]))
}

/// Whether merging the two (unsorted) lists succeeds.
pub open spec fn merge_ok(
    infos: Seq<PodmanContainerInfo>,
    stats: Seq<PodmanContainerStats>,
) -> bool {
    correlated(sort_by_id(infos), sort_by_id(stats))
}

/// What merging the two (unsorted) lists yields when it succeeds.
pub open spec fn merge_spec(
    infos: Seq<PodmanContainerInfo>,
    stats: Seq<PodmanContainerStats>,
) -> Seq<crate::services::ContainerInfo> {
    merge_pairs(sort_by_id(infos), sort_by_id(stats))
}

/// A merged list keeps the ascending identifier order of its metadata side.
pub proof fn lemma_merge_pairs_sorted(
    si: Seq<PodmanContainerInfo>,
    ss: Seq<PodmanContainerStats>,
)
    requires
        sorted_by_id(si),
    ensures
        sorted_by_id(merge_pairs(si, ss)),
{
    let m = merge_pairs(si, ss);
    assert forall|i: int, j: int| 0 <= i < j < m.len() implies crate::order::lex_le(
        #[trigger] m[i].id_key(),
        #[trigger] m[j].id_key(),
    ) by {
        assert(m[i] == merged_of(si[i], ss[i]));
        assert(m[j] == merged_of(si[j], ss[j]));
        assert(m[i].id_key() == si[i].id_key());
        assert(m[j].id_key() == si[j].id_key());
    }
}

/// The merged view of a snapshot does not depend on the order in which
/// either source listed its records, as long as neither repeats an
/// identifier: permuting the inputs permutes nothing in the output.
pub proof fn lemma_merge_order_independent(
    i1: Seq<PodmanContainerInfo>,
    s1: Seq<PodmanContainerStats>,
    i2: Seq<PodmanContainerInfo>,
    s2: Seq<PodmanContainerStats>,
)
    requires
        i1.to_multiset() == i2.to_multiset(),
        s1.to_multiset() == s2.to_multiset(),
        distinct_ids(i1),
        distinct_ids(s1),
    ensures
        merge_spec(i1, s1) == merge_spec(i2, s2),
        merge_ok(i1, s1) == merge_ok(i2, s2),
{
    lemma_sort_sorted(i1);
    lemma_sort_sorted(i2);
    lemma_sort_multiset(i1);
    lemma_sort_multiset(i2);
    lemma_sort_distinct(i1);
    lemma_sorted_unique_by_id(sort_by_id(i1), sort_by_id(i2));
    lemma_sort_sorted(s1);
    lemma_sort_sorted(s2);
    lemma_sort_multiset(s1);
    lemma_sort_multiset(s2);
    lemma_sort_distinct(s1);
    lemma_sorted_unique_by_id(sort_by_id(s1), sort_by_id(s2));
}

/// When the two sources report exactly the same identifiers — no sample
/// carrying a truncated form — the merge always succeeds: sorting aligns
/// each container with its own sample, and an identifier is a prefix of
/// itself.
pub proof fn lemma_merge_same_ids_succeeds(
    infos: Seq<PodmanContainerInfo>,
    stats: Seq<PodmanContainerStats>,
)
    requires
        ids_of(infos).to_multiset() == ids_of(stats).to_multiset(),
    ensures
        merge_ok(infos, stats),
        forall|k: int|
            0 <= k < merge_spec(infos, stats).len() ==> #[trigger] merge_spec(infos, stats)[k].id@
                == sort_by_id(stats)[k].id@,
{
    broadcast use vstd::seq_lib::group_to_multiset_ensures;
    broadcast use vstd::multiset::group_multiset_axioms;

    let si = sort_by_id(infos);
    let ss = sort_by_id(stats);
    lemma_sort_len(infos);
    lemma_sort_len(stats);
    lemma_sort_sorted(infos);
    lemma_sort_sorted(stats);
    lemma_sort_multiset(infos);
    lemma_sort_multiset(stats);
    lemma_ids_multiset(si, infos);
    lemma_ids_multiset(ss, stats);
    assert(ids_of(si).to_multiset() == ids_of(ss).to_multiset());
    lemma_sorted_same_ids(si, ss);
    assert(ids_of(si) == ids_of(ss));
    assert(ids_of(si).len() == si.len());
    assert(ids_of(ss).len() == ss.len());
    assert(si.len() == ss.len());
    assert forall|k: int| 0 <= k < pair_count(si, ss) implies is_prefix_of(
        (#[trigger] ss[k]).id@,
        si[k].id@,
    ) by {
        assert(ids_of(si)[k] == ids_of(ss)[k]);
        assert(si[k].id@ == ss[k].id@);
        assert(si[k].id@.take(ss[k].id@.len() as int) =~= ss[k].id@);
    }
    assert forall|k: int| 0 <= k < merge_spec(infos, stats).len() implies #[trigger] merge_spec(
        infos,
        stats,
    )[k].id@ == sort_by_id(stats)[k].id@ by {
        assert(merge_spec(infos, stats)[k] == merged_of(si[k], ss[k]));
        assert(ids_of(si)[k] == ids_of(ss)[k]);
        assert(si[k].id@ == ss[k].id@);
    }
}

/// A successful merge yields exactly one record per pair, in ascending
/// identifier order: one entry for each position of the shorter sorted
/// input.
pub proof fn lemma_merge_one_per_pair(
    infos: Seq<PodmanContainerInfo>,
    stats: Seq<PodmanContainerStats>,
)
    ensures
        merge_spec(infos, stats).len() == if infos.len() <= stats.len() {
            infos.len() as int
        } else {
            stats.len() as int
        },
        sorted_by_id(merge_spec(infos, stats)),
{
    lemma_sort_len(infos);
    lemma_sort_len(stats);
    lemma_sort_sorted(infos);
    lemma_merge_pairs_sorted(sort_by_id(infos), sort_by_id(stats));
}

/// The aggregation service: merges a metadata list and a usage-stats list
/// into one ordered list of merged records, and composes the fetches of a
/// runtime client into a snapshot.
pub struct PodmanService;

impl Default for PodmanService {
    fn default() -> (r: PodmanService)
        ensures
            r == (PodmanService {}),
    {
        PodmanService {}
    }
}

impl PodmanService {
    pub fn new() -> (r: PodmanService)
        ensures
            r == (PodmanService {}),
    {
        Self
    }

    /// Sorts both lists by identifier, pairs them positionally up to the
    /// shorter length, and checks that each sample's identifier is a
    /// prefix of its partner's canonical identifier. A pair that does not
    /// correlate is a data-consistency fault and fails the whole merge.
    pub fn merge_containers(
        &self,
        infos: Vec<PodmanContainerInfo>,
        stats: Vec<PodmanContainerStats>,
    ) -> (r: Result<Vec<crate::services::ContainerInfo>, MergeError>)
        ensures
            r matches Ok(v) ==> merge_ok(infos@, stats@) && v@ == merge_spec(infos@, stats@),
            r matches Err(e) ==> !merge_ok(infos@, stats@) && e == MergeError::CorrelationFault,
    {
        let ghost ginfos = infos@;
        let ghost gstats = stats@;
        let mut si = sort_vec_by_id(infos);
        let mut ss = sort_vec_by_id(stats);
        let ghost osi = sort_by_id(ginfos);
        let ghost oss = sort_by_id(gstats);
        let n = if si.len() <= ss.len() {
            si.len()
        } else {
            ss.len()
        };
        let mut out: Vec<crate::services::ContainerInfo> = Vec::new();
        let mut k: usize = 0;
        proof {
            assert(si@ =~= osi.skip(0));
            assert(ss@ =~= oss.skip(0));
        }
        while k < n
            invariant
                k <= n,
                n == pair_count(osi, oss),
                ginfos == infos@,
                gstats == stats@,
                osi == sort_by_id(ginfos),
                oss == sort_by_id(gstats),
                n <= osi.len(),
                n <= oss.len(),
                si@ == osi.skip(k as int),
                ss@ == oss.skip(k as int),
                out@.len() == k,
                forall|t: int| 0 <= t < k ==> #[trigger] out@[t] == merged_of(osi[t], oss[t]),
                forall|t: int| 0 <= t < k ==> is_prefix_of((#[trigger] oss[t]).id@, osi[t].id@),
            decreases n - k,
        {
            proof {
                assert(si@[0] == osi[k as int]);
                assert(ss@[0] == oss[k as int]);
            }
            if !str_starts_with(si[0].id.as_str(), ss[0].id.as_str()) {
                proof {
                    assert(!is_prefix_of(oss[k as int].id@, osi[k as int].id@));
                }
                return Err(MergeError::CorrelationFault);
            }
            let info = si.remove(0);
            let stat = ss.remove(0);
            let rec = crate::services::ContainerInfo {
                image: info.image,
                id: info.id,
                names: info.names,
                started_at: info.started_at,
                state: info.state,
                cpu_percent: stat.cpu_percent,
                mem_percent: stat.mem_percent,
                mem_usage: stat.mem_usage,
            };
            proof {
                assert(rec == merged_of(osi[k as int], oss[k as int]));
                assert(si@ =~= osi.skip(k + 1));
                assert(ss@ =~= oss.skip(k + 1));
            }
            out.push(rec);
            k = k + 1;
        }
        proof {
            assert(out@ =~= merge_pairs(osi, oss));
        }
        Ok(out)
    }

    /// One snapshot cycle: fetch the metadata list, fetch the usage-stats
    /// list, and merge them. Either fetch failure fails the snapshot with
    /// that error, unchanged; a correlation fault is reported the same way
    /// a failed fetch would be. A successful snapshot lists its records by
    /// ascending canonical identifier.
    pub fn get_running_containers<S: crate::podman::PodmanServiceTrait>(
        &self,
        client: &S,
    ) -> (r: Result<Vec<crate::services::ContainerInfo>, String>)
        ensures
            r matches Ok(v) ==> sorted_by_id(v@),
    {
        let infos = match client.running_containers() {
            Ok(v) => v,
            Err(e) => {
                return Err(e);
            },
        };
        let stats = match client.running_containers_stats() {
            Ok(v) => v,
            Err(e) => {
                return Err(e);
            },
        };
        let infos = from_podman_infos(infos);
        let stats = from_podman_stats(stats);
        let ghost ginfos = infos@;
        let ghost gstats = stats@;
        match self.merge_containers(infos, stats) {
            Ok(v) => {
                proof {
                    lemma_merge_one_per_pair(ginfos, gstats);
                }
                Ok(v)
            },
            Err(_) => Err(String::from_str("usage stats do not match the running containers")),
        }
    }

    /// Whether the metadata list of one fresh fetch holds the exact
    /// identifier. A fetch failure is the client's error, unchanged.
    pub fn is_container_running<S: crate::podman::PodmanServiceTrait>(
        &self,
        client: &S,
        id: &str,
    ) -> (r: Result<bool, String>)
    {
        match client.running_containers() {
            Ok(v) => Ok(contains_exact_id(&v, id)),
            Err(e) => Err(e),
        }
    }
}

/// Whether some metadata record carries exactly this identifier (no prefix
/// matching: control actions name containers by their canonical id).
pub fn contains_exact_id(infos: &Vec<crate::podman::ContainerInfo>, id: &str) -> (r: bool)
    ensures
        r == exists|k: int| 0 <= k < infos@.len() && (#[trigger] infos@[k]).id@ == id@,
{
    let mut i: usize = 0;
    while i < infos.len()
        invariant
            i <= infos@.len(),
            forall|k: int| 0 <= k < i ==> (#[trigger] infos@[k]).id@ != id@,
        decreases infos@.len() - i,
    {
        if str_eq(infos[i].id.as_str(), id) {
            return true;
        }
        i = i + 1;
    }
    false
}

/// Carries metadata records from the runtime client's shape into the
/// aggregation's, field for field.
pub fn from_podman_infos(v: Vec<crate::podman::ContainerInfo>) -> (r: Vec<PodmanContainerInfo>)
    ensures
        r@.len() == v@.len(),
        forall|k: int|
            0 <= k < v@.len() ==> (#[trigger] r@[k]).image == v@[k].image && r@[k].id == v@[k].id
                && r@[k].names == v@[k].names && r@[k].started_at == v@[k].started_at
                && r@[k].state == v@[k].state,
{
    let ghost orig = v@;
    let mut input = v;
    let mut out: Vec<PodmanContainerInfo> = Vec::new();
    proof {
        assert(input@ =~= orig.skip(0));
    }
    while input.len() > 0
        invariant
            out@.len() <= orig.len(),
            input@ == orig.skip(out@.len() as int),
            forall|k: int|
                0 <= k < out@.len() ==> (#[trigger] out@[k]).image == orig[k].image && out@[k].id
                    == orig[k].id && out@[k].names == orig[k].names && out@[k].started_at
                    == orig[k].started_at && out@[k].state == orig[k].state,
        decreases input@.len(),
    {
        let ghost k = out@.len() as int;
        proof {
            assert(input@[0] == orig[k]);
        }
        let x = input.remove(0);
        out.push(
            PodmanContainerInfo {
                image: x.image,
                id: x.id,
                names: x.names,
                started_at: x.started_at,
                state: x.state,
            },
        );
        proof {
            assert(input@ =~= orig.skip(out@.len() as int));
        }
    }
    out
}

/// Carries usage samples from the runtime client's shape into the
/// aggregation's, field for field.
pub fn from_podman_stats(v: Vec<crate::podman::ContainerStats>) -> (r: Vec<PodmanContainerStats>)
    ensures
        r@.len() == v@.len(),
        forall|k: int|
            0 <= k < v@.len() ==> (#[trigger] r@[k]).id == v@[k].id && r@[k].cpu_percent
                == v@[k].cpu_percent && r@[k].mem_percent == v@[k].mem_percent && r@[k].mem_usage
                == v@[k].mem_usage,
{
    let ghost orig = v@;
    let mut input = v;
    let mut out: Vec<PodmanContainerStats> = Vec::new();
    proof {
        assert(input@ =~= orig.skip(0));
    }
    while input.len() > 0
        invariant
            out@.len() <= orig.len(),
            input@ == orig.skip(out@.len() as int),
            forall|k: int|
                0 <= k < out@.len() ==> (#[trigger] out@[k]).id == orig[k].id && out@[k].cpu_percent
                    == orig[k].cpu_percent && out@[k].mem_percent == orig[k].mem_percent
                    && out@[k].mem_usage == orig[k].mem_usage,
        decreases input@.len(),
    {
        let ghost k = out@.len() as int;
        proof {
            assert(input@[0] == orig[k]);
        }
        let x = input.remove(0);
        out.push(
            PodmanContainerStats {
                id: x.id,
                cpu_percent: x.cpu_percent,
                mem_percent: x.mem_percent,
                mem_usage: x.mem_usage,
            },
        );
        proof {
            assert(input@ =~= orig.skip(out@.len() as int));
        }
    }
    out
}

} // verus!
