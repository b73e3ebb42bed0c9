//! Latency-probe bookkeeping and best-address selection.
//!
//! A probe itself — a timed TCP connection attempt — is the caller's job;
//! this module consumes probe outcomes (`Some(latency)` on success, `None`
//! on timeout or refusal), selects the best candidate address per domain, and
//! aggregates a whole scan into a result set.

use vstd::prelude::*;
use crate::text::{plain_token, str_eq};

verus! {

/// Result of one latency probe of a single candidate address.
#[derive(Debug, Clone)]
pub struct LatencyResult {
    pub ip: String,
    pub domain: String,
    pub latency_ms: Option<u64>,
    pub success: bool,
}

/// A known domain with its ordered candidate addresses and, after a scan,
/// the winning address.
#[derive(Debug, Clone)]
pub struct DomainEntry {
    pub domain: String,
    pub candidate_ips: Vec<String>,
    pub best_ip: Option<String>,
    pub best_latency_ms: Option<u64>,
}

impl DomainEntry {
    /// The candidate addresses as character sequences.
    pub open spec fn ips(&self) -> Seq<Seq<char>> {
        Seq::new(self.candidate_ips@.len(), |i: int| self.candidate_ips@[i]@)
    }

    /// Every token of the entry may stand inside a line of the managed block.
    pub open spec fn plain(&self) -> bool {
        &&& plain_token(self.domain@)
        &&& forall|i: int| 0 <= i < self.ips().len() ==> plain_token(self.ips()[i])
    }
}

/// The selector's fold over probe outcomes in candidate order: a later
/// candidate displaces the current best only with a strictly lower latency,
/// so ties keep the earliest winner.
pub open spec fn winner(probes: Seq<Option<u64>>) -> Option<int>
    decreases probes.len(),
{
    if probes.len() == 0 {
        None
    } else {
        let last = probes.len() - 1;
        match winner(probes.drop_last()) {
            None => if probes[last] is Some {
                Some(last)
            } else {
                None
            },
            Some(w) => if probes[last] is Some && probes[last]->0 < probes[w]->0 {
                Some(last)
            } else {
                Some(w)
            },
        }
    }
}

/// What the fold computes: the winner exists exactly when some probe
/// succeeded, has the lowest successful latency, and is the earliest
/// candidate with that latency.
pub proof fn lemma_winner_spec(probes: Seq<Option<u64>>)
    ensures
        winner(probes) is None <==> (forall|j: int|
            0 <= j < probes.len() ==> probes[j] is None),
        winner(probes) matches Some(w) ==> {
            &&& 0 <= w < probes.len()
            &&& probes[w] is Some
            &&& forall|j: int|
                0 <= j < probes.len() && probes[j] is Some ==> probes[w]->0 <= probes[j]->0
            &&& forall|j: int| 0 <= j < w && probes[j] is Some ==> probes[w]->0 < probes[j]->0
        },
    decreases probes.len(),
{
    if probes.len() > 0 {
        let prefix = probes.drop_last();
        lemma_winner_spec(prefix);
        let last = probes.len() - 1;
        assert(forall|j: int| 0 <= j < prefix.len() ==> prefix[j] == probes[j]);
        if winner(probes) is Some && winner(prefix) is Some {
            let p = winner(prefix)->0;
            assert(forall|j: int|
                0 <= j < prefix.len() && probes[j] is Some ==> probes[p]->0 <= probes[j]->0);
        }
    }
}

/// Tie-break law: when the first two candidates both succeed with the same
/// latency and no later candidate beats it, the first candidate wins.
pub proof fn lemma_selector_tie_break(probes: Seq<Option<u64>>)
    requires
        probes.len() >= 2,
        probes[0] is Some,
        probes[1] is Some,
        probes[1]->0 == probes[0]->0,
        forall|j: int|
            0 <= j < probes.len() && #[trigger] probes[j] is Some ==> probes[0]->0 <= probes[j]->0,
    ensures
        winner(probes) == Some(0int),
{
    lemma_winner_spec(probes);
    if winner(probes) is Some {
        let w = winner(probes)->0;
        if w != 0 {
            assert(probes[w]->0 < probes[0]->0);
            assert(probes[0]->0 <= probes[w]->0);
            assert(false);
        }
    }
}

/// Probes every candidate of `entry` having the given outcomes, retains the
/// candidate with the strictly lowest successful latency (ties keep the
/// earliest), records it in the entry, and reports it.
pub fn find_best_ip_for_domain(entry: &mut DomainEntry, probes: &Vec<Option<u64>>) -> (r: Option<
    LatencyResult,
>)
    requires
        probes@.len() == old(entry).candidate_ips@.len(),
    ensures
        final(entry).domain == old(entry).domain,
        final(entry).candidate_ips == old(entry).candidate_ips,
        match winner(probes@) {
            Some(w) => {
                &&& r matches Some(res)
                &&& res.ip@ == old(entry).ips()[w]
                &&& res.domain@ == old(entry).domain@
                &&& res.latency_ms == probes@[w]
                &&& res.success
                &&& final(entry).best_ip matches Some(b) && b@ == old(entry).ips()[w]
                &&& final(entry).best_latency_ms == probes@[w]
            },
            None => {
                &&& r is None
                &&& final(entry).best_ip == old(entry).best_ip
                &&& final(entry).best_latency_ms == old(entry).best_latency_ms
            },
        },
{
    let n: usize = probes.len();
    let mut best_idx: Option<usize> = None;
    let mut i: usize = 0;
    while i < n
        invariant
            i <= n,
            n == probes@.len(),
            *entry == *old(entry),
            probes@.len() == entry.candidate_ips@.len(),
            match best_idx {
                None => winner(probes@.subrange(0, i as int)) is None,
                Some(b) => {
                    &&& b < i
                    &&& probes@[b as int] is Some
                    &&& winner(probes@.subrange(0, i as int)) == Some(b as int)
                },
            },
        decreases n - i,
    {
        proof {
            assert(probes@.subrange(0, i + 1).drop_last() =~= probes@.subrange(0, i as int));
            assert(probes@.subrange(0, i + 1).last() == probes@[i as int]);
        }
        match probes[i] {
            Some(lat) => {
                match best_idx {
                    None => {
                        best_idx = Some(i);
                    },
                    Some(b) => {
                        let best_lat = probes[b].unwrap();
                        if lat < best_lat {
                            best_idx = Some(i);
                        }
                    },
                }
            },
            None => {},
        }
        i = i + 1;
    }
    proof {
        assert(probes@.subrange(0, n as int) =~= probes@);
    }
    match best_idx {
        Some(b) => {
            let ip = entry.candidate_ips[b].clone();
            let lat = probes[b];
            entry.best_ip = Some(ip.clone());
            entry.best_latency_ms = lat;
            Some(
                LatencyResult {
                    ip,
                    domain: entry.domain.clone(),
                    latency_ms: lat,
                    success: true,
                },
            )
        },
        None => None,
    }
}

/// The rating label for a measured latency.
pub open spec fn quality_rating_spec(latency_ms: u64) -> Seq<char> {
    if latency_ms <= 50 {
        "极佳"@
    } else if latency_ms <= 100 {
        "良好"@
    } else if latency_ms <= 200 {
        "一般"@
    } else if latency_ms <= 500 {
        "较慢"@
    } else {
        "很慢"@
    }
}

/// Rates a measured latency.
pub fn get_quality_rating(latency_ms: u64) -> (r: &'static str)
    ensures
        r@ == quality_rating_spec(latency_ms),
{
    if latency_ms <= 50 {
        "极佳"
    } else if latency_ms <= 100 {
        "良好"
    } else if latency_ms <= 200 {
        "一般"
    } else if latency_ms <= 500 {
        "较慢"
    } else {
        "很慢"
    }
}

/// The display colour for a measured latency, as red, green and blue parts.
pub open spec fn quality_color_spec(latency_ms: u64) -> (u8, u8, u8) {
    if latency_ms <= 50 {
        (80u8, 220u8, 120u8)
    } else if latency_ms <= 100 {
        (120u8, 200u8, 80u8)
    } else if latency_ms <= 200 {
        (220u8, 180u8, 50u8)
    } else if latency_ms <= 500 {
        (255u8, 140u8, 60u8)
    } else {
        (255u8, 80u8, 80u8)
    }
}

/// Colours a measured latency.
pub fn get_quality_color(latency_ms: u64) -> (r: (u8, u8, u8))
    ensures
        r == quality_color_spec(latency_ms),
{
    if latency_ms <= 50 {
        (80, 220, 120)
    } else if latency_ms <= 100 {
        (120, 200, 80)
    } else if latency_ms <= 200 {
        (220, 180, 50)
    } else if latency_ms <= 500 {
        (255, 140, 60)
    } else {
        (255, 80, 80)
    }
}


/// The static registry: each known domain with its ordered candidate
/// addresses, the order being the fallback priority.
pub open spec fn registry_spec() -> Seq<(Seq<char>, Seq<Seq<char>>)> {
    seq![
        ("github.com"@, seq!["140.82.112.4"@, "140.82.113.4"@, "140.82.114.4"@, "20.205.243.166"@, "20.27.177.113"@]),
        ("api.github.com"@, seq!["140.82.112.6"@, "140.82.113.6"@, "140.82.114.6"@, "20.205.243.168"@]),
        ("gist.github.com"@, seq!["140.82.112.4"@, "140.82.113.4"@, "140.82.114.4"@]),
        ("raw.githubusercontent.com"@, seq!["185.199.108.133"@, "185.199.109.133"@, "185.199.110.133"@, "185.199.111.133"@]),
        ("codeload.github.com"@, seq!["140.82.112.10"@, "140.82.113.10"@, "140.82.114.10"@]),
        ("github.githubassets.com"@, seq!["185.199.108.154"@, "185.199.109.154"@, "185.199.110.154"@, "185.199.111.154"@]),
        ("assets-cdn.github.com"@, seq!["185.199.108.153"@, "185.199.109.153"@, "185.199.110.153"@, "185.199.111.153"@]),
        ("cloud.githubusercontent.com"@, seq!["185.199.108.133"@, "185.199.109.133"@, "185.199.110.133"@, "185.199.111.133"@]),
        ("avatars.githubusercontent.com"@, seq!["185.199.108.133"@, "185.199.109.133"@, "185.199.110.133"@, "185.199.111.133"@]),
        ("github.global.ssl.fastly.net"@, seq!["199.232.69.194"@, "151.101.1.194"@, "151.101.65.194"@, "151.101.129.194"@]),
        ("githubstatus.com"@, seq!["185.199.108.153"@, "185.199.109.153"@, "185.199.110.153"@, "185.199.111.153"@]),
        ("collector.github.com"@, seq!["140.82.112.22"@, "140.82.113.22"@, "140.82.114.22"@]),
        ("objects.githubusercontent.com"@, seq!["185.199.108.133"@, "185.199.109.133"@, "185.199.110.133"@, "185.199.111.133"@]),
    ]
}

/// A registry entry as first handed out: named and filled with its
/// candidates, with no selection recorded yet.
pub open spec fn fresh_entry(e: DomainEntry, s: (Seq<char>, Seq<Seq<char>>)) -> bool {
    &&& e.domain@ == s.0
    &&& e.ips() == s.1
    &&& e.best_ip is None
    &&& e.best_latency_ms is None
}

/// Facts about the registry constants: every domain and address is a plain
/// token, every candidate list is non-empty, and the domains are distinct.
pub proof fn lemma_registry_wf()
    ensures
        forall|i: int|
            0 <= i < registry_spec().len() ==> plain_token(#[trigger] registry_spec()[i].0),
        forall|i: int, j: int|
            0 <= i < registry_spec().len() && 0 <= j < registry_spec()[i].1.len() ==> plain_token(
                #[trigger] registry_spec()[i].1[j],
            ),
        forall|i: int| 0 <= i < registry_spec().len() ==> #[trigger] registry_spec()[i].1.len() > 0,
        forall|i: int, j: int|
            0 <= i < j < registry_spec().len() ==> #[trigger] registry_spec()[i].0
                != #[trigger] registry_spec()[j].0,
{
    reveal_strlit("github.com");
    reveal_strlit("140.82.112.4");
    reveal_strlit("140.82.113.4");
    reveal_strlit("140.82.114.4");
    reveal_strlit("20.205.243.166");
    reveal_strlit("20.27.177.113");
    reveal_strlit("api.github.com");
    reveal_strlit("140.82.112.6");
    reveal_strlit("140.82.113.6");
    reveal_strlit("140.82.114.6");
    reveal_strlit("20.205.243.168");
    reveal_strlit("gist.github.com");
    reveal_strlit("raw.githubusercontent.com");
    reveal_strlit("185.199.108.133");
    reveal_strlit("185.199.109.133");
    reveal_strlit("185.199.110.133");
    reveal_strlit("185.199.111.133");
    reveal_strlit("codeload.github.com");
    reveal_strlit("140.82.112.10");
    reveal_strlit("140.82.113.10");
    reveal_strlit("140.82.114.10");
    reveal_strlit("github.githubassets.com");
    reveal_strlit("185.199.108.154");
    reveal_strlit("185.199.109.154");
    reveal_strlit("185.199.110.154");
    reveal_strlit("185.199.111.154");
    reveal_strlit("assets-cdn.github.com");
    reveal_strlit("185.199.108.153");
    reveal_strlit("185.199.109.153");
    reveal_strlit("185.199.110.153");
    reveal_strlit("185.199.111.153");
    reveal_strlit("cloud.githubusercontent.com");
    reveal_strlit("avatars.githubusercontent.com");
    reveal_strlit("github.global.ssl.fastly.net");
    reveal_strlit("199.232.69.194");
    reveal_strlit("151.101.1.194");
    reveal_strlit("151.101.65.194");
    reveal_strlit("151.101.129.194");
    reveal_strlit("githubstatus.com");
    reveal_strlit("collector.github.com");
    reveal_strlit("140.82.112.22");
    reveal_strlit("140.82.113.22");
    reveal_strlit("140.82.114.22");
    reveal_strlit("objects.githubusercontent.com");
    assert(plain_token("github.com"@));
    assert(plain_token("140.82.112.4"@));
    assert(plain_token("140.82.113.4"@));
    assert(plain_token("140.82.114.4"@));
    assert(plain_token("20.205.243.166"@));
    assert(plain_token("20.27.177.113"@));
    assert(plain_token("api.github.com"@));
    assert(plain_token("140.82.112.6"@));
    assert(plain_token("140.82.113.6"@));
    assert(plain_token("140.82.114.6"@));
    assert(plain_token("20.205.243.168"@));
    assert(plain_token("gist.github.com"@));
    assert(plain_token("raw.githubusercontent.com"@));
    assert(plain_token("185.199.108.133"@));
    assert(plain_token("185.199.109.133"@));
    assert(plain_token("185.199.110.133"@));
    assert(plain_token("185.199.111.133"@));
    assert(plain_token("codeload.github.com"@));
    assert(plain_token("140.82.112.10"@));
    assert(plain_token("140.82.113.10"@));
    assert(plain_token("140.82.114.10"@));
    assert(plain_token("github.githubassets.com"@));
    assert(plain_token("185.199.108.154"@));
    assert(plain_token("185.199.109.154"@));
    assert(plain_token("185.199.110.154"@));
    assert(plain_token("185.199.111.154"@));
    assert(plain_token("assets-cdn.github.com"@));
    assert(plain_token("185.199.108.153"@));
    assert(plain_token("185.199.109.153"@));
    assert(plain_token("185.199.110.153"@));
    assert(plain_token("185.199.111.153"@));
    assert(plain_token("cloud.githubusercontent.com"@));
    assert(plain_token("avatars.githubusercontent.com"@));
    assert(plain_token("github.global.ssl.fastly.net"@));
    assert(plain_token("199.232.69.194"@));
    assert(plain_token("151.101.1.194"@));
    assert(plain_token("151.101.65.194"@));
    assert(plain_token("151.101.129.194"@));
    assert(plain_token("githubstatus.com"@));
    assert(plain_token("collector.github.com"@));
    assert(plain_token("140.82.112.22"@));
    assert(plain_token("140.82.113.22"@));
    assert(plain_token("140.82.114.22"@));
    assert(plain_token("objects.githubusercontent.com"@));
    assert forall|i: int, j: int|
        0 <= i < j < registry_spec().len() implies #[trigger] registry_spec()[i].0
        != #[trigger] registry_spec()[j].0 by {
        if i == 8 && j == 12 {
            assert(registry_spec()[8].0[0] == 'a');
            assert(registry_spec()[12].0[0] == 'o');
        }
    }
}

/// The static registry of known domains with their candidate addresses.
pub fn get_domain_candidates() -> (r: Vec<DomainEntry>)
    ensures
        r@.len() == registry_spec().len(),
        forall|i: int| 0 <= i < r@.len() ==> fresh_entry(#[trigger] r@[i], registry_spec()[i]),
{
    let mut r: Vec<DomainEntry> = Vec::new();
    let mut ips: Vec<String> = Vec::new();
    ips.push(String::from_str("140.82.112.4"));
    ips.push(String::from_str("140.82.113.4"));
    ips.push(String::from_str("140.82.114.4"));
    ips.push(String::from_str("20.205.243.166"));
    ips.push(String::from_str("20.27.177.113"));
    let e = make_entry("github.com", ips);
    proof {
        assert(e.ips() =~= registry_spec()[0].1);
    }
    r.push(e);
    let mut ips: Vec<String> = Vec::new();
    ips.push(String::from_str("140.82.112.6"));
    ips.push(String::from_str("140.82.113.6"));
    ips.push(String::from_str("140.82.114.6"));
    ips.push(String::from_str("20.205.243.168"));
    let e = make_entry("api.github.com", ips);
    proof {
        assert(e.ips() =~= registry_spec()[1].1);
    }
    r.push(e);
    let mut ips: Vec<String> = Vec::new();
    ips.push(String::from_str("140.82.112.4"));
    ips.push(String::from_str("140.82.113.4"));
    ips.push(String::from_str("140.82.114.4"));
    let e = make_entry("gist.github.com", ips);
    proof {
        assert(e.ips() =~= registry_spec()[2].1);
    }
    r.push(e);
    let mut ips: Vec<String> = Vec::new();
    ips.push(String::from_str("185.199.108.133"));
    ips.push(String::from_str("185.199.109.133"));
    ips.push(String::from_str("185.199.110.133"));
    ips.push(String::from_str("185.199.111.133"));
    let e = make_entry("raw.githubusercontent.com", ips);
    proof {
        assert(e.ips() =~= registry_spec()[3].1);
    }
    r.push(e);
    let mut ips: Vec<String> = Vec::new();
    ips.push(String::from_str("140.82.112.10"));
    ips.push(String::from_str("140.82.113.10"));
    ips.push(String::from_str("140.82.114.10"));
    let e = make_entry("codeload.github.com", ips);
    proof {
        assert(e.ips() =~= registry_spec()[4].1);
    }
    r.push(e);
    let mut ips: Vec<String> = Vec::new();
    ips.push(String::from_str("185.199.108.154"));
    ips.push(String::from_str("185.199.109.154"));
    ips.push(String::from_str("185.199.110.154"));
    ips.push(String::from_str("185.199.111.154"));
    let e = make_entry("github.githubassets.com", ips);
    proof {
        assert(e.ips() =~= registry_spec()[5].1);
    }
    r.push(e);
    let mut ips: Vec<String> = Vec::new();
    ips.push(String::from_str("185.199.108.153"));
    ips.push(String::from_str("185.199.109.153"));
    ips.push(String::from_str("185.199.110.153"));
    ips.push(String::from_str("185.199.111.153"));
    let e = make_entry("assets-cdn.github.com", ips);
    proof {
        assert(e.ips() =~= registry_spec()[6].1);
    }
    r.push(e);
    let mut ips: Vec<String> = Vec::new();
    ips.push(String::from_str("185.199.108.133"));
    ips.push(String::from_str("185.199.109.133"));
    ips.push(String::from_str("185.199.110.133"));
    ips.push(String::from_str("185.199.111.133"));
    let e = make_entry("cloud.githubusercontent.com", ips);
    proof {
        assert(e.ips() =~= registry_spec()[7].1);
    }
    r.push(e);
    let mut ips: Vec<String> = Vec::new();
    ips.push(String::from_str("185.199.108.133"));
    ips.push(String::from_str("185.199.109.133"));
    ips.push(String::from_str("185.199.110.133"));
    ips.push(String::from_str("185.199.111.133"));
    let e = make_entry("avatars.githubusercontent.com", ips);
    proof {
        assert(e.ips() =~= registry_spec()[8].1);
    }
    r.push(e);
    let mut ips: Vec<String> = Vec::new();
    ips.push(String::from_str("199.232.69.194"));
    ips.push(String::from_str("151.101.1.194"));
    ips.push(String::from_str("151.101.65.194"));
    ips.push(String::from_str("151.101.129.194"));
    let e = make_entry("github.global.ssl.fastly.net", ips);
    proof {
        assert(e.ips() =~= registry_spec()[9].1);
    }
    r.push(e);
    let mut ips: Vec<String> = Vec::new();
    ips.push(String::from_str("185.199.108.153"));
    ips.push(String::from_str("185.199.109.153"));
    ips.push(String::from_str("185.199.110.153"));
    ips.push(String::from_str("185.199.111.153"));
    let e = make_entry("githubstatus.com", ips);
    proof {
        assert(e.ips() =~= registry_spec()[10].1);
    }
    r.push(e);
    let mut ips: Vec<String> = Vec::new();
    ips.push(String::from_str("140.82.112.22"));
    ips.push(String::from_str("140.82.113.22"));
    ips.push(String::from_str("140.82.114.22"));
    let e = make_entry("collector.github.com", ips);
    proof {
        assert(e.ips() =~= registry_spec()[11].1);
    }
    r.push(e);
    let mut ips: Vec<String> = Vec::new();
    ips.push(String::from_str("185.199.108.133"));
    ips.push(String::from_str("185.199.109.133"));
    ips.push(String::from_str("185.199.110.133"));
    ips.push(String::from_str("185.199.111.133"));
    let e = make_entry("objects.githubusercontent.com", ips);
    proof {
        assert(e.ips() =~= registry_spec()[12].1);
    }
    r.push(e);
    proof {
        assert forall|i: int| 0 <= i < r@.len() implies fresh_entry(#[trigger] r@[i], registry_spec()[i]) by {
        }
    }
    r
}

/// Builds one registry entry with nothing selected yet.
fn make_entry(domain: &str, ips: Vec<String>) -> (e: DomainEntry)
    ensures
        e.domain@ == domain@,
        e.candidate_ips == ips,
        e.best_ip is None,
        e.best_latency_ms is None,
{
    DomainEntry {
        domain: String::from_str(domain),
        candidate_ips: ips,
        best_ip: None,
        best_latency_ms: None,
    }
}


/// One domain's outcome in a completed scan.
#[derive(Debug, Clone)]
pub struct ScanRecord {
    pub domain: String,
    pub ip: String,
    pub latency_ms: u64,
}

/// The views of one record, as a triple.
pub open spec fn record_view(rec: ScanRecord) -> (Seq<char>, Seq<char>, u64) {
    (rec.domain@, rec.ip@, rec.latency_ms)
}

/// The views of a whole record sequence.
pub open spec fn triples_of(records: Seq<ScanRecord>) -> Seq<(Seq<char>, Seq<char>, u64)> {
    Seq::new(records.len(), |i: int| record_view(records[i]))
}

/// Reads a triple sequence as a mapping from domain to address and latency;
/// a later record for the same domain wins.
pub open spec fn map_of_view(v: Seq<(Seq<char>, Seq<char>, u64)>) -> Map<
    Seq<char>,
    (Seq<char>, u64),
>
    decreases v.len(),
{
    if v.len() == 0 {
        Map::empty()
    } else {
        map_of_view(v.drop_last()).insert(v.last().0, (v.last().1, v.last().2))
    }
}

/// The result set of one full scan: one record per domain that had at least
/// one successful probe.
#[derive(Debug, Clone)]
pub struct ScanResult {
    pub records: Vec<ScanRecord>,
}

impl ScanResult {
    /// The records as view triples, in record order.
    pub open spec fn view_triples(&self) -> Seq<(Seq<char>, Seq<char>, u64)> {
        triples_of(self.records@)
    }

    /// The scan as a mapping from domain to winning address and latency.
    pub open spec fn as_map(&self) -> Map<Seq<char>, (Seq<char>, u64)> {
        map_of_view(self.view_triples())
    }

    /// One record per domain, every token fit for a line of the managed block.
    pub open spec fn wf(&self) -> bool {
        &&& forall|i: int, j: int|
            0 <= i < j < self.records@.len() ==> (#[trigger] self.records@[i]).domain@ != (
            #[trigger] self.records@[j]).domain@
        &&& forall|i: int|
            0 <= i < self.records@.len() ==> plain_token((#[trigger] self.records@[i]).domain@)
                && plain_token(self.records@[i].ip@)
    }

    /// An empty result set.
    pub fn new() -> (r: ScanResult)
        ensures
            r.records@.len() == 0,
            r.wf(),
    {
        ScanResult { records: Vec::new() }
    }

    /// How many domains the scan recorded.
    pub fn len(&self) -> (n: usize)
        ensures
            n == self.records@.len(),
    {
        self.records.len()
    }
}

/// The domains of the entries are pairwise distinct.
pub open spec fn distinct_domains(entries: Seq<DomainEntry>) -> bool {
    forall|i: int, j: int|
        0 <= i < j < entries.len() ==> (#[trigger] entries[i]).domain@ != (
        #[trigger] entries[j]).domain@
}

/// Every entry holds only tokens fit for a line of the managed block.
pub open spec fn all_plain(entries: Seq<DomainEntry>) -> bool {
    forall|i: int| 0 <= i < entries.len() ==> (#[trigger] entries[i]).plain()
}

/// The inner views of a sequence of probe vectors.
pub open spec fn probe_views(probes: Seq<Vec<Option<u64>>>) -> Seq<Seq<Option<u64>>> {
    Seq::new(probes.len(), |i: int| probes[i]@)
}

/// What a full scan yields, entry by entry: the winning address and latency
/// of each domain with a successful probe, in registry order; domains with
/// none are left out.
pub open spec fn scan_view(entries: Seq<DomainEntry>, probes: Seq<Seq<Option<u64>>>) -> Seq<
    (Seq<char>, Seq<char>, u64),
>
    decreases entries.len(),
{
    if entries.len() == 0 {
        Seq::empty()
    } else {
        let prefix = scan_view(entries.drop_last(), probes.drop_last());
        let e = entries.last();
        let p = probes.last();
        match winner(p) {
            Some(w) => prefix.push((e.domain@, e.ips()[w], p[w]->0)),
            None => prefix,
        }
    }
}

/// Scan completeness: a domain is in the result set exactly when one of its
/// probes succeeded, and then it maps to the winning address with its
/// measured latency; a domain with no successful probe is wholly absent.
pub proof fn lemma_scan_completeness(entries: Seq<DomainEntry>, probes: Seq<Seq<Option<u64>>>)
    requires
        probes.len() == entries.len(),
        distinct_domains(entries),
    ensures
        forall|d: Seq<char>|
            #[trigger] map_of_view(scan_view(entries, probes)).contains_key(d) <==> exists|i: int|
                0 <= i < entries.len() && (#[trigger] entries[i]).domain@ == d && winner(
                    probes[i],
                ) is Some,
        forall|i: int|
            0 <= i < entries.len() && #[trigger] winner(probes[i]) is Some ==> map_of_view(
                scan_view(entries, probes),
            )[entries[i].domain@] == (
                entries[i].ips()[winner(probes[i])->0],
                probes[i][winner(probes[i])->0]->0,
            ),
    decreases entries.len(),
{
    if entries.len() > 0 {
        let ep = entries.drop_last();
        let pp = probes.drop_last();
        let last = entries.len() - 1;
        lemma_scan_completeness(ep, pp);
        assert(forall|i: int| 0 <= i < ep.len() ==> ep[i] == entries[i]);
        assert(forall|i: int| 0 <= i < pp.len() ==> pp[i] == probes[i]);
        let prefix = scan_view(ep, pp);
        if winner(probes[last]) is Some {
            let w = winner(probes[last])->0;
            let t = (entries[last].domain@, entries[last].ips()[w], probes[last][w]->0);
            assert(scan_view(entries, probes) == prefix.push(t));
            assert(prefix.push(t).drop_last() =~= prefix);
            assert(map_of_view(prefix.push(t)) == map_of_view(prefix).insert(t.0, (t.1, t.2)));
            assert forall|i: int|
                0 <= i < entries.len() && #[trigger] winner(probes[i]) is Some implies map_of_view(
                scan_view(entries, probes),
            )[entries[i].domain@] == (
                entries[i].ips()[winner(probes[i])->0],
                probes[i][winner(probes[i])->0]->0,
            ) by {
                if i < last {
                    assert(entries[i].domain@ != entries[last].domain@);
                }
            }
        } else {
            assert(scan_view(entries, probes) == prefix);
        }
    }
}

/// Runs the selector for every domain of the registry slice against its probe
/// outcomes, records each winner in its entry, and gathers the result set of
/// the scan: exactly the domains with a successful probe, each with its
/// winning address and latency.
pub fn run_scan(entries: &mut Vec<DomainEntry>, probes: &Vec<Vec<Option<u64>>>) -> (r: ScanResult)
    requires
        probes@.len() == old(entries)@.len(),
        forall|i: int|
            0 <= i < probes@.len() ==> (#[trigger] probes@[i])@.len() == old(entries)@[i].candidate_ips@.len(),
        distinct_domains(old(entries)@),
        all_plain(old(entries)@),
    ensures
        final(entries)@.len() == old(entries)@.len(),
        forall|i: int|
            0 <= i < final(entries)@.len() ==> (#[trigger] final(entries)@[i]).domain == old(entries)@[i].domain && final(entries)@[i].candidate_ips == old(entries)@[i].candidate_ips,
        forall|i: int|
            0 <= i < final(entries)@.len() ==> match winner(probe_views(probes@)[i]) {
                Some(w) => (#[trigger] final(entries)@[i]).best_ip matches Some(b) && b@ == old(entries)@[i].ips()[w] && final(entries)@[i].best_latency_ms == probes@[i]@[w],
                None => (#[trigger] final(entries)@[i]).best_ip == old(entries)@[i].best_ip && final(entries)@[i].best_latency_ms == old(entries)@[i].best_latency_ms,
            },
        r.view_triples() == scan_view(old(entries)@, probe_views(probes@)),
        r.wf(),
        forall|d: Seq<char>|
            #[trigger] r.as_map().contains_key(d) <==> exists|i: int|
                0 <= i < old(entries)@.len() && (#[trigger] old(entries)@[i]).domain@ == d && winner(
                    probe_views(probes@)[i],
                ) is Some,
        forall|i: int|
            0 <= i < old(entries)@.len() && #[trigger] winner(probe_views(probes@)[i]) is Some
                ==> r.as_map()[old(entries)@[i].domain@] == (
                old(entries)@[i].ips()[winner(probe_views(probes@)[i])->0],
                probes@[i]@[winner(probe_views(probes@)[i])->0]->0,
            ),
{
    let n: usize = entries.len();
    let mut records: Vec<ScanRecord> = Vec::new();
    let ghost mut srcs: Seq<int> = Seq::empty();
    let mut i: usize = 0;
    while i < n
        invariant
            i <= n,
            n == entries@.len(),
            entries@.len() == old(entries)@.len(),
            probes@.len() == n,
            forall|j: int|
                0 <= j < probes@.len() ==> (#[trigger] probes@[j])@.len() == old(entries)@[j].candidate_ips@.len(),
            distinct_domains(old(entries)@),
            all_plain(old(entries)@),
            forall|j: int| i <= j < n ==> entries@[j] == old(entries)@[j],
            forall|j: int|
                0 <= j < i ==> (#[trigger] entries@[j]).domain == old(entries)@[j].domain
                    && entries@[j].candidate_ips == old(entries)@[j].candidate_ips,
            forall|j: int|
                0 <= j < i ==> match winner(probe_views(probes@)[j]) {
                    Some(w) => (#[trigger] entries@[j]).best_ip matches Some(b) && b@ == old(entries)@[j].ips()[w] && entries@[j].best_latency_ms == probes@[j]@[w],
                    None => (#[trigger] entries@[j]).best_ip == old(entries)@[j].best_ip
                        && entries@[j].best_latency_ms == old(entries)@[j].best_latency_ms,
                },
            triples_of(records@) == scan_view(
                old(entries)@.subrange(0, i as int),
                probe_views(probes@).subrange(0, i as int),
            ),
            srcs.len() == records@.len(),
            forall|k: int|
                0 <= k < srcs.len() ==> 0 <= #[trigger] srcs[k] < i && records@[k].domain@ == old(entries)@[srcs[k]].domain@ && plain_token(records@[k].domain@) && plain_token(
                    records@[k].ip@,
                ),
            forall|k: int, l: int| 0 <= k < l < srcs.len() ==> srcs[k] < srcs[l],
        decreases n - i,
    {
        let res = find_best_ip_for_domain(&mut entries[i], &probes[i]);
        proof {
            lemma_winner_spec(probes@[i as int]@);
            assert(probe_views(probes@)[i as int] == probes@[i as int]@);
            assert(old(entries)@.subrange(0, i + 1).drop_last() =~= old(entries)@.subrange(
                0,
                i as int,
            ));
            assert(probe_views(probes@).subrange(0, i + 1).drop_last() =~= probe_views(
                probes@,
            ).subrange(0, i as int));
            assert(old(entries)@.subrange(0, i + 1).last() == old(entries)@[i as int]);
            assert(probe_views(probes@).subrange(0, i + 1).last() == probes@[i as int]@);
        }
        match res {
            Some(best) => {
                match best.latency_ms {
                    Some(lat) => {
                        let ghost w = winner(probes@[i as int]@)->0;
                        let rec = ScanRecord { domain: best.domain, ip: best.ip, latency_ms: lat };
                        proof {
                            assert(old(entries)@[i as int].plain());
                            assert(plain_token(rec.domain@));
                            assert(plain_token(old(entries)@[i as int].ips()[w]));
                        }
                        records.push(rec);
                        proof {
                            srcs = srcs.push(i as int);
                            assert(triples_of(records@) =~= scan_view(
                                old(entries)@.subrange(0, i + 1),
                                probe_views(probes@).subrange(0, i + 1),
                            ));
                        }
                    },
                    None => {
                        proof {
                            assert(false);
                        }
                    },
                }
            },
            None => {},
        }
        i = i + 1;
        proof {
            if winner(probe_views(probes@)[i - 1]) is None {
                assert(triples_of(records@) =~= scan_view(
                    old(entries)@.subrange(0, i as int),
                    probe_views(probes@).subrange(0, i as int),
                ));
            }
        }
    }
    proof {
        assert(old(entries)@.subrange(0, n as int) =~= old(entries)@);
        assert(probe_views(probes@).subrange(0, n as int) =~= probe_views(probes@));
        lemma_scan_completeness(old(entries)@, probe_views(probes@));
    }
    let r = ScanResult { records };
    proof {
        assert forall|i2: int, j2: int|
            0 <= i2 < j2 < r.records@.len() implies (#[trigger] r.records@[i2]).domain@ != (
        #[trigger] r.records@[j2]).domain@ by {
            assert(srcs[i2] < srcs[j2]);
            assert(r.records@[i2].domain@ == old(entries)@[srcs[i2]].domain@);
            assert(r.records@[j2].domain@ == old(entries)@[srcs[j2]].domain@);
        }
        assert forall|k: int|
            0 <= k < r.records@.len() implies plain_token((#[trigger] r.records@[k]).domain@)
            && plain_token(r.records@[k].ip@) by {
            assert(0 <= srcs[k] < n);
        }
    }
    r
}


/// What the quick diagnostic reports for one entry: the winning address on
/// success, else a failure record naming the first candidate.
pub open spec fn key_outcome(
    rec: LatencyResult,
    d: (Seq<char>, Seq<Seq<char>>),
    probes: Seq<Option<u64>>,
) -> bool {
    match winner(probes) {
        Some(w) => {
            &&& rec.ip@ == d.1[w]
            &&& rec.domain@ == d.0
            &&& rec.latency_ms == probes[w]
            &&& rec.success
        },
        None => {
            &&& rec.ip@ == if d.1.len() > 0 {
                d.1[0]
            } else {
                Seq::<char>::empty()
            }
            &&& rec.domain@ == d.0
            &&& rec.latency_ms is None
            &&& !rec.success
        },
    }
}

/// How many of the key domains lie below registry index `i`.
pub open spec fn keys_before(i: int) -> int {
    (if i > 0 { 1int } else { 0int }) + (if i > 1 { 1int } else { 0int })
        + (if i > 3 { 1int } else { 0int })
}

/// Quick diagnostic pass over the key domains alone, given probe outcomes
/// for the whole registry: one report per key domain, in registry order.
pub fn test_key_domains(probes: &Vec<Vec<Option<u64>>>) -> (r: Vec<LatencyResult>)
    requires
        probes@.len() == registry_spec().len(),
        forall|i: int|
            0 <= i < probes@.len() ==> (#[trigger] probes@[i])@.len() == registry_spec()[i].1.len(),
    ensures
        r@.len() == 3,
        key_outcome(r@[0], registry_spec()[0], probes@[0]@),
        key_outcome(r@[1], registry_spec()[1], probes@[1]@),
        key_outcome(r@[2], registry_spec()[3], probes@[3]@),
{
    let mut entries = get_domain_candidates();
    proof {
        lemma_registry_wf();
    }
    let ghost init = entries@;
    let mut results: Vec<LatencyResult> = Vec::new();
    let n: usize = entries.len();
    let mut i: usize = 0;
    while i < n
        invariant
            i <= n,
            n == entries@.len(),
            entries@.len() == registry_spec().len(),
            probes@.len() == registry_spec().len(),
            forall|j: int|
                0 <= j < probes@.len() ==> (#[trigger] probes@[j])@.len()
                    == registry_spec()[j].1.len(),
            init.len() == entries@.len(),
            forall|j: int| 0 <= j < init.len() ==> fresh_entry(#[trigger] init[j], registry_spec()[j]),
            forall|j: int| i <= j < n ==> entries@[j] == init[j],
            forall|j1: int, j2: int|
                0 <= j1 < j2 < registry_spec().len() ==> registry_spec()[j1].0
                    != registry_spec()[j2].0,
            results@.len() == keys_before(i as int),
            i > 0 ==> key_outcome(results@[0], registry_spec()[0], probes@[0]@),
            i > 1 ==> key_outcome(results@[1], registry_spec()[1], probes@[1]@),
            i > 3 ==> key_outcome(results@[2], registry_spec()[3], probes@[3]@),
        decreases n - i,
    {
        let is_key = str_eq(entries[i].domain.as_str(), "github.com") || str_eq(
            entries[i].domain.as_str(),
            "api.github.com",
        ) || str_eq(entries[i].domain.as_str(), "raw.githubusercontent.com");
        proof {
            assert(entries@[i as int] == init[i as int]);
            assert(fresh_entry(init[i as int], registry_spec()[i as int]));
            assert(entries@[i as int].domain@ == registry_spec()[i as int].0);
            assert(registry_spec()[0].0 == "github.com"@);
            assert(registry_spec()[1].0 == "api.github.com"@);
            assert(registry_spec()[3].0 == "raw.githubusercontent.com"@);
            assert(is_key <==> (i == 0 || i == 1 || i == 3));
        }
        if is_key {
            match find_best_ip_for_domain(&mut entries[i], &probes[i]) {
                Some(res) => {
                    results.push(res);
                },
                None => {
                    let ip = if entries[i].candidate_ips.len() > 0 {
                        entries[i].candidate_ips[0].clone()
                    } else {
                        String::new()
                    };
                    let rec = LatencyResult {
                        ip,
                        domain: entries[i].domain.clone(),
                        latency_ms: None,
                        success: false,
                    };
                    results.push(rec);
                },
            }
        }
        i = i + 1;
    }
    results
}

/// One row of the scan summary shown to the user, rated and coloured.
#[derive(Debug)]
pub struct SpeedTestResult {
    pub domain: String,
    pub ip: String,
    pub latency_ms: u64,
    pub quality: String,
    pub color: (u8, u8, u8),
}

/// The views of one display row.
pub open spec fn display_view(r: SpeedTestResult) -> (
    Seq<char>,
    Seq<char>,
    u64,
    Seq<char>,
    (u8, u8, u8),
) {
    (r.domain@, r.ip@, r.latency_ms, r.quality@, r.color)
}

/// The row one scan record ought to become.
pub open spec fn display_of(rec: ScanRecord) -> (
    Seq<char>,
    Seq<char>,
    u64,
    Seq<char>,
    (u8, u8, u8),
) {
    (
        rec.domain@,
        rec.ip@,
        rec.latency_ms,
        quality_rating_spec(rec.latency_ms),
        quality_color_spec(rec.latency_ms),
    )
}

/// One display row reduced to its views.
pub type RowView = (Seq<char>, Seq<char>, u64, Seq<char>, (u8, u8, u8));

/// Where a new row belongs among already ordered rows: after every row at
/// most as slow, before the first strictly slower one, so rows of equal
/// latency keep their arrival order.
pub open spec fn place_row(s: Seq<RowView>, x: RowView) -> Seq<RowView>
    decreases s.len(),
{
    if s.len() == 0 {
        seq![x]
    } else if s.last().2 <= x.2 {
        s.push(x)
    } else {
        place_row(s.drop_last(), x).push(s.last())
    }
}

/// The rows ordered from fastest to slowest by placing each in turn: the
/// stable ordering of the sequence by latency.
pub open spec fn sort_rows(s: Seq<RowView>) -> Seq<RowView>
    decreases s.len(),
{
    if s.len() == 0 {
        s
    } else {
        place_row(sort_rows(s.drop_last()), s.last())
    }
}

/// Placing a row equals inserting it at the position its latency earns.
proof fn lemma_place_row_at(s: Seq<RowView>, x: RowView, j: int)
    requires
        forall|k: int, l: int| 0 <= k < l < s.len() ==> (#[trigger] s[k]).2 <= (#[trigger] s[l]).2,
        0 <= j <= s.len(),
        forall|k: int| 0 <= k < j ==> (#[trigger] s[k]).2 <= x.2,
        j < s.len() ==> s[j].2 > x.2,
    ensures
        place_row(s, x) == s.insert(j, x),
    decreases s.len(),
{
    if s.len() == 0 {
        assert(s.insert(0, x) =~= seq![x]);
    } else if s.last().2 <= x.2 {
        if j < s.len() {
            assert(s[j].2 <= s[s.len() - 1].2);
            assert(false);
        }
        assert(s.insert(j, x) =~= s.push(x));
    } else {
        assert(s[s.len() - 1].2 > x.2);
        assert(j < s.len());
        let sp = s.drop_last();
        assert(forall|k: int| 0 <= k < sp.len() ==> sp[k] == s[k]);
        lemma_place_row_at(sp, x, j);
        sp.insert_ensures(j, x);
        s.insert_ensures(j, x);
        assert(place_row(s, x) =~= s.insert(j, x));
    }
}

/// Turns a scan's result set into display rows, one per record, rated and
/// coloured by latency and ordered from fastest to slowest.
pub fn results_to_display(results: &ScanResult) -> (r: Vec<SpeedTestResult>)
    ensures
        r@.len() == results.records@.len(),
        forall|k: int, l: int|
            0 <= k < l < r@.len() ==> (#[trigger] r@[k]).latency_ms <= (#[trigger] r@[l]).latency_ms,
        r@.map_values(|x: SpeedTestResult| display_view(x)).to_multiset()
            == results.records@.map_values(|rec: ScanRecord| display_of(rec)).to_multiset(),
        r@.map_values(|x: SpeedTestResult| display_view(x)) == sort_rows(
            results.records@.map_values(|rec: ScanRecord| display_of(rec)),
        ),
{
    broadcast use vstd::seq_lib::group_to_multiset_ensures;

    let n: usize = results.records.len();
    let mut rows: Vec<SpeedTestResult> = Vec::new();
    let mut i: usize = 0;
    while i < n
        invariant
            i <= n,
            n == results.records@.len(),
            rows@.len() == i,
            forall|k: int|
                0 <= k < i ==> display_view(#[trigger] rows@[k]) == display_of(
                    results.records@[k],
                ),
        decreases n - i,
    {
        let rec = &results.records[i];
        let lat = rec.latency_ms;
        let row = SpeedTestResult {
            domain: rec.domain.clone(),
            ip: rec.ip.clone(),
            latency_ms: lat,
            quality: String::from_str(get_quality_rating(lat)),
            color: get_quality_color(lat),
        };
        rows.push(row);
        i = i + 1;
    }
    proof {
        assert(rows@.map_values(|x: SpeedTestResult| display_view(x)) =~= results.records@
            .map_values(|rec: ScanRecord| display_of(rec)));
    }
    let ghost target = rows@.map_values(|x: SpeedTestResult| display_view(x)).to_multiset();
    let ghost orig = rows@.map_values(|x: SpeedTestResult| display_view(x));
    proof {
        assert(rows@.map_values(|x: SpeedTestResult| display_view(x)) == orig);
        if n > 0 {
            let one = orig.subrange(0, 1);
            assert(one.drop_last() =~= Seq::<RowView>::empty());
            assert(sort_rows(Seq::<RowView>::empty()) == Seq::<RowView>::empty());
            assert(one.last() == orig[0]);
            assert(sort_rows(one) == place_row(Seq::<RowView>::empty(), orig[0]));
            assert(place_row(Seq::<RowView>::empty(), orig[0]) =~= seq![orig[0]]);
            assert(orig =~= sort_rows(one) + orig.subrange(1, n as int));
        }
    }
    let mut idx: usize = 1;
    while idx < n
        invariant
            1 <= idx,
            n > 0 ==> idx <= n,
            n == 0 ==> idx == 1,
            rows@.len() == n,
            orig.len() == n,
            forall|k: int, l: int|
                0 <= k < l < idx && l < n ==> (#[trigger] rows@[k]).latency_ms <= (
                #[trigger] rows@[l]).latency_ms,
            rows@.map_values(|x: SpeedTestResult| display_view(x)).to_multiset() == target,
            n > 0 ==> rows@.map_values(|x: SpeedTestResult| display_view(x)) =~= sort_rows(
                orig.subrange(0, idx as int),
            ) + orig.subrange(idx as int, n as int),
        decreases n - idx,
    {
        let ghost pre = rows@;
        let item = rows.remove(idx);
        let mut j: usize = 0;
        while j < idx && rows[j].latency_ms <= item.latency_ms
            invariant
                j <= idx,
                idx < n,
                rows@.len() == n - 1,
                forall|k: int| 0 <= k < j ==> (#[trigger] rows@[k]).latency_ms <= item.latency_ms,
            decreases idx - j,
        {
            j = j + 1;
        }
        rows.insert(j, item);
        proof {
            broadcast use vstd::seq_lib::group_to_multiset_ensures;

            let f = |x: SpeedTestResult| display_view(x);
            let removed = pre.remove(idx as int);
            let m0 = pre.map_values(f);
            let m1 = removed.map_values(f);
            let m2 = rows@.map_values(f);
            assert(m1 =~= m0.remove(idx as int));
            assert(m2 =~= m1.insert(j as int, f(item)));
            assert(m0.remove(idx as int).to_multiset() =~= m0.to_multiset().remove(
                m0[idx as int],
            ));
            assert(m0[idx as int] == f(item));
            assert(m1.insert(j as int, f(item)).to_multiset() =~= m1.to_multiset().insert(
                f(item),
            ));
            assert(m0.contains(m0[idx as int]));
            assert(m0.to_multiset().count(f(item)) > 0);
            assert(m2.to_multiset() =~= m0.to_multiset()) by {
                broadcast use vstd::multiset::group_multiset_axioms;

            }
            let sorted_part = sort_rows(orig.subrange(0, idx as int));
            let fitem = f(item);
            assert(pre.map_values(f) =~= sorted_part + orig.subrange(idx as int, n as int));
            assert(pre.map_values(f)[idx as int] == orig[idx as int]);
            assert(fitem == orig[idx as int]);
            assert(removed.map_values(f) =~= sorted_part + orig.subrange(idx + 1, n as int));
            assert forall|k: int, l: int|
                0 <= k < l < sorted_part.len() implies (#[trigger] sorted_part[k]).2 <= (
            #[trigger] sorted_part[l]).2 by {
                assert(sorted_part[k] == pre.map_values(f)[k]);
                assert(sorted_part[l] == pre.map_values(f)[l]);
                assert(pre[k].latency_ms <= pre[l].latency_ms);
            }
            assert forall|k: int| 0 <= k < j implies (#[trigger] sorted_part[k]).2 <= fitem.2 by {
                assert(sorted_part[k] == removed.map_values(f)[k]);
                assert(removed[k].latency_ms <= item.latency_ms);
            }
            if (j as int) < sorted_part.len() {
                assert(sorted_part[j as int] == removed.map_values(f)[j as int]);
                assert(removed[j as int].latency_ms > item.latency_ms);
            }
            lemma_place_row_at(sorted_part, fitem, j as int);
            assert(orig.subrange(0, idx + 1).drop_last() =~= orig.subrange(0, idx as int));
            assert(orig.subrange(0, idx + 1).last() == orig[idx as int]);
            assert(sort_rows(orig.subrange(0, idx + 1)) == place_row(sorted_part, fitem));
            sorted_part.insert_ensures(j as int, fitem);
            removed.insert_ensures(j as int, item);
            assert(rows@.map_values(f) =~= sorted_part.insert(j as int, fitem) + orig.subrange(
                idx + 1,
                n as int,
            ));
            assert(rows@.map_values(f) =~= sort_rows(orig.subrange(0, idx + 1)) + orig.subrange(
                idx + 1,
                n as int,
            ));
            assert forall|k: int, l: int|
                0 <= k < l < idx + 1 && l < n implies (#[trigger] rows@[k]).latency_ms <= (
            #[trigger] rows@[l]).latency_ms by {
                assert(rows@ == removed.insert(j as int, item));
                if k < j && l < j {
                    assert(rows@[k] == removed[k] && rows@[l] == removed[l]);
                    assert(removed[k] == pre[k] && removed[l] == pre[l]);
                } else if k < j && l == j {
                    assert(rows@[k] == removed[k] && removed[k] == pre[k]);
                    assert(rows@[l] == item);
                } else if k < j && l > j {
                    assert(rows@[k] == pre[k]);
                    assert(rows@[l] == removed[l - 1] && removed[l - 1] == pre[l - 1]);
                    if j < idx {
                        assert(pre[j as int].latency_ms > item.latency_ms || j == l - 1);
                    }
                } else if k == j {
                    assert(rows@[k] == item);
                    assert(rows@[l] == removed[l - 1] && removed[l - 1] == pre[l - 1]);
                    assert(j < idx);
                    assert(pre[j as int].latency_ms > item.latency_ms);
                    assert(pre[j as int].latency_ms <= pre[l - 1].latency_ms);
                } else {
                    assert(rows@[k] == pre[k - 1] && rows@[l] == pre[l - 1]);
                }
            }
        }
        idx = idx + 1;
    }
    proof {
        let f = |x: SpeedTestResult| display_view(x);
        if n == 0 {
            assert(rows@.map_values(f) =~= sort_rows(orig));
        } else {
            assert(idx == n);
            assert(orig.subrange(0, n as int) =~= orig);
            assert(sort_rows(orig.subrange(0, n as int)) == sort_rows(orig));
            assert(sort_rows(orig.subrange(0, n as int)) + orig.subrange(n as int, n as int)
                =~= sort_rows(orig.subrange(0, n as int)));
            assert(rows@.map_values(f) =~= sort_rows(orig));
        }
        assert(orig =~= results.records@.map_values(|rec: ScanRecord| display_of(rec)));
    }
    rows
}


/// What the fold over view triples yields: a key per triple's domain, and,
/// with distinct domains, each mapped to its triple's address and latency.
pub proof fn lemma_map_of_view(v: Seq<(Seq<char>, Seq<char>, u64)>)
    ensures
        forall|d: Seq<char>|
            #[trigger] map_of_view(v).contains_key(d) <==> exists|k: int|
                0 <= k < v.len() && (#[trigger] v[k]).0 == d,
        (forall|k1: int, k2: int| 0 <= k1 < k2 < v.len() ==> (#[trigger] v[k1]).0 != (
        #[trigger] v[k2]).0) ==> forall|k: int|
            0 <= k < v.len() ==> map_of_view(v)[(#[trigger] v[k]).0] == (v[k].1, v[k].2),
    decreases v.len(),
{
    if v.len() > 0 {
        let prefix = v.drop_last();
        let last = v.len() - 1;
        lemma_map_of_view(prefix);
        assert(forall|k: int| 0 <= k < prefix.len() ==> prefix[k] == v[k]);
        assert(v[last] == v.last());
        assert forall|d: Seq<char>| #[trigger] map_of_view(v).contains_key(d) implies exists|k: int|
            0 <= k < v.len() && (#[trigger] v[k]).0 == d by {
            if d == v.last().0 {
                assert(v[last].0 == d);
            } else {
                assert(map_of_view(prefix).contains_key(d));
                let k = choose|k: int| 0 <= k < prefix.len() && (#[trigger] prefix[k]).0 == d;
                assert(v[k].0 == d);
            }
        }
        assert forall|d: Seq<char>|
            (exists|k: int| 0 <= k < v.len() && (#[trigger] v[k]).0 == d) implies #[trigger] map_of_view(
            v,
        ).contains_key(d) by {
            let k = choose|k: int| 0 <= k < v.len() && (#[trigger] v[k]).0 == d;
            if k < last {
                assert(prefix[k].0 == d);
                assert(map_of_view(prefix).contains_key(d));
            }
        }
        if forall|k1: int, k2: int| 0 <= k1 < k2 < v.len() ==> (#[trigger] v[k1]).0 != (
        #[trigger] v[k2]).0 {
            assert forall|k1: int, k2: int|
                0 <= k1 < k2 < prefix.len() implies (#[trigger] prefix[k1]).0 != (
            #[trigger] prefix[k2]).0 by {
                assert(v[k1].0 != v[k2].0);
            }
            assert forall|k: int| 0 <= k < v.len() implies map_of_view(v)[(#[trigger] v[k]).0] == (
                v[k].1,
                v[k].2,
            ) by {
                if k < last {
                    assert(v[k].0 != v[last].0);
                    assert(map_of_view(prefix)[prefix[k].0] == (prefix[k].1, prefix[k].2));
                }
            }
        }
    }
}

/// The result set read record by record: a key per record's domain and, when
/// the set is well formed, each domain mapped to its record's outcome.
pub proof fn lemma_triples_map(results: &ScanResult)
    ensures
        forall|d: Seq<char>|
            #[trigger] results.as_map().contains_key(d) <==> exists|k: int|
                0 <= k < results.records@.len() && (#[trigger] results.records@[k]).domain@ == d,
        results.wf() ==> forall|k: int|
            0 <= k < results.records@.len() ==> results.as_map()[(
            #[trigger] results.records@[k]).domain@] == (
                results.records@[k].ip@,
                results.records@[k].latency_ms,
            ),
{
    let v = results.view_triples();
    lemma_map_of_view(v);
    assert(forall|k: int| 0 <= k < v.len() ==> (#[trigger] v[k]) == record_view(
        results.records@[k],
    ));
    assert forall|d: Seq<char>| #[trigger] results.as_map().contains_key(d) implies exists|k: int|
        0 <= k < results.records@.len() && (#[trigger] results.records@[k]).domain@ == d by {
        let k = choose|k: int| 0 <= k < v.len() && (#[trigger] v[k]).0 == d;
        assert(results.records@[k].domain@ == d);
    }
    assert forall|d: Seq<char>|
        (exists|k: int| 0 <= k < results.records@.len() && (#[trigger] results.records@[k]).domain@
            == d) implies #[trigger] results.as_map().contains_key(d) by {
        let k = choose|k: int|
            0 <= k < results.records@.len() && (#[trigger] results.records@[k]).domain@ == d;
        assert(v[k].0 == d);
    }
    if results.wf() {
        assert forall|k1: int, k2: int| 0 <= k1 < k2 < v.len() implies (#[trigger] v[k1]).0 != (
        #[trigger] v[k2]).0 by {
            assert(results.records@[k1].domain@ != results.records@[k2].domain@);
        }
        assert forall|k: int|
            0 <= k < results.records@.len() implies results.as_map()[(
        #[trigger] results.records@[k]).domain@] == (
            results.records@[k].ip@,
            results.records@[k].latency_ms,
        ) by {
            assert(map_of_view(v)[(v[k]).0] == (v[k].1, v[k].2));
            assert(v[k] == record_view(results.records@[k]));
        }
    }
}

} // verus!
