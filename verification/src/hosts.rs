//! The optimized-address store and the transactional hosts-file editor.
//!
//! The editor works on file content handed in as text and returns the new
//! content to write back: it locates the managed block between its two fixed
//! markers, removes it, and appends a freshly built one.  Reading and writing
//! the file itself is the caller's job.

use vstd::prelude::*;
use crate::network::{
    DomainEntry,
    ScanResult,
    get_domain_candidates,
    lemma_registry_wf,
    registry_spec,
};
use crate::text::{
    contains_from,
    contains_pat,
    first_occurrence,
    first_occurrence_from,
    find_pat,
    find_pat_from,
    lemma_first_occurrence_from_unique,
    lemma_no_straddle_newline,
    lemma_occurs_in_suffix,
    no_char,
    occurs_at,
    occurs_only_at,
    plain_token,
    str_eq,
    to_chars,
};

verus! {

/// Failure of an editor operation: the content holds an opening marker with
/// no closing marker after it, so the block's extent is unknown and nothing
/// is touched.
#[derive(Debug, Clone, Copy, PartialEq, Eq, Structural)]
pub enum HostsError {
    InconsistentBlock,
}

/// One committed winner: a domain and the address chosen for it.
#[derive(Debug, Clone)]
pub struct StoreRecord {
    pub domain: String,
    pub ip: String,
}

/// The cache of the most recent scan's winning addresses, one record per
/// domain.  It is an owned value handed to whoever needs it; a completed scan
/// replaces its whole contents, and the editor reads it.
#[derive(Debug)]
pub struct OptimizedIpStore {
    pub records: Vec<StoreRecord>,
}

/// Reads store records as a mapping from domain to address; a later record
/// for the same domain wins.
pub open spec fn store_map_of(records: Seq<StoreRecord>) -> Map<Seq<char>, Seq<char>>
    decreases records.len(),
{
    if records.len() == 0 {
        Map::empty()
    } else {
        store_map_of(records.drop_last()).insert(
            records.last().domain@,
            records.last().ip@,
        )
    }
}

/// What the fold yields: a key for each record's domain, and, when domains
/// are distinct, each domain mapped to its record's address.
pub proof fn lemma_store_map_of(records: Seq<StoreRecord>)
    ensures
        forall|d: Seq<char>|
            #[trigger] store_map_of(records).contains_key(d) <==> exists|k: int|
                0 <= k < records.len() && (#[trigger] records[k]).domain@ == d,
        (forall|k1: int, k2: int|
            0 <= k1 < k2 < records.len() ==> (#[trigger] records[k1]).domain@ != (
            #[trigger] records[k2]).domain@) ==> forall|k: int|
            0 <= k < records.len() ==> store_map_of(records)[(#[trigger] records[k]).domain@]
                == records[k].ip@,
    decreases records.len(),
{
    if records.len() > 0 {
        let prefix = records.drop_last();
        let last = records.len() - 1;
        lemma_store_map_of(prefix);
        assert(forall|k: int| 0 <= k < prefix.len() ==> prefix[k] == records[k]);
        assert(records[last] == records.last());
        assert forall|d: Seq<char>|
            #[trigger] store_map_of(records).contains_key(d) implies exists|k: int|
            0 <= k < records.len() && (#[trigger] records[k]).domain@ == d by {
            if d == records.last().domain@ {
                assert(records[last].domain@ == d);
            } else {
                assert(store_map_of(prefix).contains_key(d));
                let k = choose|k: int|
                    0 <= k < prefix.len() && (#[trigger] prefix[k]).domain@ == d;
                assert(records[k].domain@ == d);
            }
        }
        assert forall|d: Seq<char>|
            (exists|k: int| 0 <= k < records.len() && (#[trigger] records[k]).domain@
                == d) implies #[trigger] store_map_of(records).contains_key(d) by {
            let k = choose|k: int| 0 <= k < records.len() && (#[trigger] records[k]).domain@ == d;
            if k < last {
                assert(prefix[k].domain@ == d);
                assert(store_map_of(prefix).contains_key(d));
            }
        }
        if forall|k1: int, k2: int|
            0 <= k1 < k2 < records.len() ==> (#[trigger] records[k1]).domain@ != (
        #[trigger] records[k2]).domain@ {
            assert forall|k1: int, k2: int|
                0 <= k1 < k2 < prefix.len() implies (#[trigger] prefix[k1]).domain@ != (
            #[trigger] prefix[k2]).domain@ by {
                assert(records[k1].domain@ != records[k2].domain@);
            }
            assert forall|k: int|
                0 <= k < records.len() implies store_map_of(records)[(
            #[trigger] records[k]).domain@] == records[k].ip@ by {
                if k < last {
                    assert(records[k].domain@ != records[last].domain@);
                    assert(store_map_of(prefix)[prefix[k].domain@] == prefix[k].ip@);
                }
            }
        }
    }
}

impl OptimizedIpStore {
    /// The store as a mapping from domain to chosen address.
    pub open spec fn as_map(&self) -> Map<Seq<char>, Seq<char>> {
        store_map_of(self.records@)
    }

    /// One record per domain, every token fit for a line of the managed block.
    pub open spec fn wf(&self) -> bool {
        &&& forall|i: int, j: int|
            0 <= i < j < self.records@.len() ==> (#[trigger] self.records@[i]).domain@ != (
            #[trigger] self.records@[j]).domain@
        &&& forall|i: int|
            0 <= i < self.records@.len() ==> plain_token((#[trigger] self.records@[i]).domain@)
                && plain_token(self.records@[i].ip@)
    }

    /// A store with no data: every lookup falls back to the defaults.
    pub fn new() -> (r: OptimizedIpStore)
        ensures
            r.records@.len() == 0,
            r.as_map() == Map::<Seq<char>, Seq<char>>::empty(),
            r.wf(),
    {
        OptimizedIpStore { records: Vec::new() }
    }

    /// Replaces the whole store with the winners of a completed scan,
    /// discarding every earlier entry.
    pub fn set_optimized_ips(&mut self, results: &ScanResult)
        requires
            results.wf(),
        ensures
            final(self).wf(),
            final(self).records@.len() == results.records@.len(),
            forall|d: Seq<char>|
                #[trigger] final(self).as_map().contains_key(d) <==> results.as_map().contains_key(
                    d,
                ),
            forall|d: Seq<char>|
                #[trigger] results.as_map().contains_key(d) ==> final(self).as_map()[d]
                    == results.as_map()[d].0,
    {
        let mut records: Vec<StoreRecord> = Vec::new();
        let n: usize = results.records.len();
        let mut i: usize = 0;
        while i < n
            invariant
                i <= n,
                n == results.records@.len(),
                results.wf(),
                records@.len() == i,
                forall|k: int|
                    0 <= k < i ==> (#[trigger] records@[k]).domain@ == results.records@[k].domain@
                        && records@[k].ip@ == results.records@[k].ip@,
            decreases n - i,
        {
            let rec = &results.records[i];
            records.push(StoreRecord { domain: rec.domain.clone(), ip: rec.ip.clone() });
            i = i + 1;
        }
        self.records = records;
        proof {
            lemma_store_map_of(self.records@);
            crate::network::lemma_triples_map(results);
            lemma_parallel_maps(self.records@, results);
        }
    }

    /// Whether any completed scan has committed data.
    pub fn has_optimized_ips(&self) -> (r: bool)
        ensures
            r == (self.records@.len() > 0),
            !r ==> self.as_map() == Map::<Seq<char>, Seq<char>>::empty(),
    {
        self.records.len() > 0
    }

    /// The address most recently committed for `domain`, if any.
    pub fn get_optimized_ip(&self, domain: &str) -> (r: Option<String>)
        requires
            self.wf(),
        ensures
            match r {
                Some(ip) => self.as_map().contains_key(domain@) && self.as_map()[domain@] == ip@,
                None => !self.as_map().contains_key(domain@),
            },
    {
        proof {
            lemma_store_map_of(self.records@);
        }
        let n: usize = self.records.len();
        let mut i: usize = 0;
        while i < n
            invariant
                i <= n,
                n == self.records@.len(),
                self.wf(),
                forall|k: int| 0 <= k < i ==> (#[trigger] self.records@[k]).domain@ != domain@,
            decreases n - i,
        {
            if str_eq(self.records[i].domain.as_str(), domain) {
                proof {
                    lemma_store_map_of(self.records@);
                }
                return Some(self.records[i].ip.clone());
            }
            i = i + 1;
        }
        None
    }

    /// Empties the store, forcing every later choice back to the defaults.
    pub fn clear_optimized_ips(&mut self)
        ensures
            final(self).records@.len() == 0,
            final(self).as_map() == Map::<Seq<char>, Seq<char>>::empty(),
            final(self).wf(),
    {
        self.records.clear();
    }
}

/// Two record sequences with equal domain and address views, one as a store
/// and one as a scan result, read as pointwise-agreeing maps.
proof fn lemma_parallel_maps(records: Seq<StoreRecord>, results: &ScanResult)
    requires
        records.len() == results.records@.len(),
        forall|k: int|
            0 <= k < records.len() ==> (#[trigger] records[k]).domain@
                == results.records@[k].domain@ && records[k].ip@ == results.records@[k].ip@,
        results.wf(),
    ensures
        forall|d: Seq<char>|
            #[trigger] store_map_of(records).contains_key(d) <==> results.as_map().contains_key(d),
        forall|d: Seq<char>|
            #[trigger] results.as_map().contains_key(d) ==> store_map_of(records)[d]
                == results.as_map()[d].0,
{
    lemma_store_map_of(records);
    crate::network::lemma_triples_map(results);
    assert forall|d: Seq<char>|
        #[trigger] store_map_of(records).contains_key(d) implies results.as_map().contains_key(
        d,
    ) by {
        let k = choose|k: int| 0 <= k < records.len() && (#[trigger] records[k]).domain@ == d;
        assert(results.records@[k].domain@ == d);
    }
    assert forall|d: Seq<char>|
        #[trigger] results.as_map().contains_key(d) implies store_map_of(records).contains_key(
        d,
    ) by {
        let k = choose|k: int|
            0 <= k < results.records@.len() && (#[trigger] results.records@[k]).domain@ == d;
        assert(records[k].domain@ == d);
    }
    assert forall|d: Seq<char>|
        #[trigger] results.as_map().contains_key(d) implies store_map_of(records)[d]
        == results.as_map()[d].0 by {
        let k = choose|k: int|
            0 <= k < results.records@.len() && (#[trigger] results.records@[k]).domain@ == d;
        assert(records[k].domain@ == d);
        assert(store_map_of(records)[records[k].domain@] == records[k].ip@);
        assert(results.as_map()[results.records@[k].domain@] == (
            results.records@[k].ip@,
            results.records@[k].latency_ms,
        ));
    }
}


/// The line that opens the managed block.
pub open spec fn start_marker() -> Seq<char> {
    "# === FREE_TO_GITHUB START ==="@
}

/// The line that closes the managed block.
pub open spec fn end_marker() -> Seq<char> {
    "# === FREE_TO_GITHUB END ==="@
}

/// A single newline.
pub open spec fn nl() -> Seq<char> {
    "\n"@
}

/// The opening marker as a string slice.
pub fn start_marker_str() -> (r: &'static str)
    ensures
        r@ == start_marker(),
{
    "# === FREE_TO_GITHUB START ==="
}

/// The closing marker as a string slice.
pub fn end_marker_str() -> (r: &'static str)
    ensures
        r@ == end_marker(),
{
    "# === FREE_TO_GITHUB END ==="
}

/// Character-level facts about the markers: their lengths, that each starts
/// with the one hash sign it holds, that neither holds a newline, and that
/// they differ where START and END diverge.
pub proof fn lemma_marker_chars()
    ensures
        start_marker().len() == 30,
        end_marker().len() == 28,
        nl().len() == 1,
        nl()[0] == '\n',
        start_marker()[0] == '#',
        end_marker()[0] == '#',
        no_char(start_marker(), '\n'),
        no_char(end_marker(), '\n'),
        forall|k: int| 1 <= k < 30 ==> start_marker()[k] != '#',
        forall|k: int| 1 <= k < 28 ==> end_marker()[k] != '#',
        start_marker()[21] != end_marker()[21],
{
    reveal_strlit("# === FREE_TO_GITHUB START ===");
    reveal_strlit("# === FREE_TO_GITHUB END ===");
    reveal_strlit("\n");
}

/// The file holds a managed block: its opening marker occurs somewhere.
/// The file itself is the one source of truth for the enabled state.
pub open spec fn has_block(c: Seq<char>) -> bool {
    contains_pat(c, start_marker())
}

/// The first position of the opening marker.
pub open spec fn start_pos(c: Seq<char>) -> int {
    choose|i: int| first_occurrence(c, start_marker(), i)
}

/// A closing marker follows the first opening marker.
pub open spec fn has_end_after(c: Seq<char>) -> bool {
    contains_from(c, end_marker(), start_pos(c))
}

/// The first position of the closing marker at or after the opening one.
pub open spec fn end_pos(c: Seq<char>) -> int {
    choose|i: int| first_occurrence_from(c, end_marker(), start_pos(c), i)
}

/// Drops one trailing newline, if any.
pub open spec fn trim_one_nl_end(s: Seq<char>) -> Seq<char> {
    if s.len() > 0 && s.last() == '\n' {
        s.drop_last()
    } else {
        s
    }
}

/// Drops one leading newline, if any.
pub open spec fn trim_one_nl_start(s: Seq<char>) -> Seq<char> {
    if s.len() > 0 && s[0] == '\n' {
        s.drop_first()
    } else {
        s
    }
}

/// What removing the managed block leaves: the text before the opening
/// marker and the text after the closing one, each giving up at most one
/// newline at the seam.  Content without a block is left as it is.
pub open spec fn strip_block(c: Seq<char>) -> Seq<char> {
    if !has_block(c) {
        c
    } else {
        trim_one_nl_end(c.subrange(0, start_pos(c))) + trim_one_nl_start(
            c.subrange(end_pos(c) + end_marker().len(), c.len() as int),
        )
    }
}

/// A witnessed first occurrence of the opening marker pins `start_pos`.
pub proof fn lemma_start_pos_is(c: Seq<char>, s: int)
    requires
        first_occurrence(c, start_marker(), s),
    ensures
        has_block(c),
        start_pos(c) == s,
{
    assert(occurs_at(c, start_marker(), s));
    assert(exists|i: int| first_occurrence(c, start_marker(), i));
    let sp = start_pos(c);
    assert(first_occurrence(c, start_marker(), sp));
    lemma_first_occurrence_from_unique(c, start_marker(), 0, s, sp);
}

/// A witnessed first closing marker after `start_pos` pins `end_pos`.
pub proof fn lemma_end_pos_is(c: Seq<char>, e: int)
    requires
        first_occurrence_from(c, end_marker(), start_pos(c), e),
    ensures
        has_end_after(c),
        end_pos(c) == e,
{
    assert(exists|i: int| first_occurrence_from(c, end_marker(), start_pos(c), i));
    let ep = end_pos(c);
    assert(first_occurrence_from(c, end_marker(), start_pos(c), ep));
    lemma_first_occurrence_from_unique(c, end_marker(), start_pos(c), e, ep);
}

/// Whether acceleration is enabled: the content holds the opening marker.
pub fn is_enabled(content: &str) -> (r: bool)
    ensures
        r == has_block(content@),
{
    let tv = to_chars(content);
    let sm = to_chars(start_marker_str());
    let found = find_pat(&tv, &sm);
    proof {
        if found is Some {
            assert(occurs_at(content@, start_marker(), found->0 as int));
        }
    }
    found.is_some()
}

/// Removes the managed block: locates the two markers, cuts everything from
/// the opening through the closing marker, and gives up at most one newline
/// at the seam.  Content with no opening marker comes back unchanged; an
/// opening marker with no closing marker after it is an inconsistent block.
pub fn disable(content: &str) -> (r: Result<String, HostsError>)
    ensures
        r is Ok <==> (!has_block(content@) || has_end_after(content@)),
        r matches Ok(out) ==> out@ == strip_block(content@),
        !has_block(content@) ==> (r matches Ok(out) && out@ == content@),
{
    let tv = to_chars(content);
    let sm = to_chars(start_marker_str());
    let em = to_chars(end_marker_str());
    match find_pat(&tv, &sm) {
        None => {
            proof {
                assert(!has_block(content@));
            }
            Ok(String::from_str(content))
        },
        Some(s) => {
            proof {
                lemma_start_pos_is(content@, s as int);
            }
            match find_pat_from(&tv, &em, s) {
                None => {
                    proof {
                        assert(!has_end_after(content@));
                    }
                    Err(HostsError::InconsistentBlock)
                },
                Some(e) => {
                    proof {
                        lemma_end_pos_is(content@, e as int);
                    }
                    let tv_len: usize = tv.len();
                    let cut_end: usize = e + em.len();
                    let mut before_end: usize = s;
                    if s > 0 {
                        if tv[s - 1] == '\n' {
                            before_end = s - 1;
                        }
                    }
                    let mut after_start: usize = cut_end;
                    if cut_end < tv_len {
                        if tv[cut_end] == '\n' {
                            after_start = cut_end + 1;
                        }
                    }
                    let before = content.substring_char(0, before_end);
                    let after = content.substring_char(after_start, tv_len);
                    let mut out = String::from_str(before);
                    out.append(after);
                    proof {
                        assert(trim_one_nl_end(content@.subrange(0, s as int))
                            =~= content@.subrange(0, before_end as int));
                        assert(trim_one_nl_start(
                            content@.subrange(cut_end as int, tv_len as int),
                        ) =~= content@.subrange(after_start as int, tv_len as int));
                        assert(out@ =~= strip_block(content@));
                    }
                    Ok(out)
                },
            }
        },
    }
}


/// One line of the managed block: address, one space, domain, newline.
pub open spec fn host_line(ip: Seq<char>, domain: Seq<char>) -> Seq<char> {
    ip + " "@ + domain + nl()
}

/// The body made of one line per pair, in order.
pub open spec fn pairs_body(pairs: Seq<(Seq<char>, Seq<char>)>) -> Seq<char>
    decreases pairs.len(),
{
    if pairs.len() == 0 {
        Seq::empty()
    } else {
        pairs_body(pairs.drop_last()) + host_line(pairs.last().0, pairs.last().1)
    }
}

/// A full managed block around a body: a separating blank line, the opening
/// marker line, the body lines, and the closing marker line.
pub open spec fn block_of(body: Seq<char>) -> Seq<char> {
    nl() + start_marker() + nl() + body + end_marker() + nl()
}

/// The address the editor chooses for an entry: the store's committed one,
/// else the entry's first candidate, else nothing.
pub open spec fn chosen_ip(e: DomainEntry, m: Map<Seq<char>, Seq<char>>) -> Seq<char> {
    if m.contains_key(e.domain@) {
        m[e.domain@]
    } else if e.ips().len() > 0 {
        e.ips()[0]
    } else {
        Seq::empty()
    }
}

/// The body built from registry entries and the store: one line per entry
/// whose chosen address is non-empty.
pub open spec fn entries_body(entries: Seq<DomainEntry>, m: Map<Seq<char>, Seq<char>>) -> Seq<char>
    decreases entries.len(),
{
    if entries.len() == 0 {
        Seq::empty()
    } else {
        let prefix = entries_body(entries.drop_last(), m);
        let ip = chosen_ip(entries.last(), m);
        if ip.len() > 0 {
            prefix + host_line(ip, entries.last().domain@)
        } else {
            prefix
        }
    }
}

/// The views of a vector of address and domain pairs.
pub open spec fn pair_views(pairs: Seq<(String, String)>) -> Seq<(Seq<char>, Seq<char>)> {
    Seq::new(pairs.len(), |i: int| (pairs[i].0@, pairs[i].1@))
}

/// Appends one line of the managed block.
fn push_line(out: &mut String, ip: &str, domain: &str)
    ensures
        final(out)@ == old(out)@ + host_line(ip@, domain@),
{
    out.append(ip);
    out.append(" ");
    out.append(domain);
    out.append("\n");
    proof {
        assert(final(out)@ =~= old(out)@ + host_line(ip@, domain@));
    }
}

/// Wraps a body into a full managed block.
fn wrap_block(body: String) -> (r: String)
    ensures
        r@ == block_of(body@),
{
    let mut out = String::new();
    out.append("\n");
    out.append(start_marker_str());
    out.append("\n");
    out.append(body.as_str());
    out.append(end_marker_str());
    out.append("\n");
    proof {
        assert(out@ =~= block_of(body@));
    }
    out
}

/// Builds the managed block for a fixed list of pairs.
fn build_pairs_text(pairs: &Vec<(String, String)>) -> (r: String)
    ensures
        r@ == block_of(pairs_body(pair_views(pairs@))),
{
    let mut body = String::new();
    let n: usize = pairs.len();
    let mut i: usize = 0;
    while i < n
        invariant
            i <= n,
            n == pairs@.len(),
            body@ == pairs_body(pair_views(pairs@).subrange(0, i as int)),
        decreases n - i,
    {
        push_line(&mut body, pairs[i].0.as_str(), pairs[i].1.as_str());
        proof {
            let pv = pair_views(pairs@);
            assert(pv.subrange(0, i + 1).drop_last() =~= pv.subrange(0, i as int));
            assert(pv.subrange(0, i + 1).last() == pv[i as int]);
        }
        i = i + 1;
    }
    proof {
        assert(pair_views(pairs@).subrange(0, n as int) =~= pair_views(pairs@));
    }
    wrap_block(body)
}

/// Builds the managed block for registry entries against the store: the
/// committed address where one exists, else the first candidate; an entry
/// with neither contributes no line.
pub fn build_hosts_text(entries: &Vec<DomainEntry>, store: &OptimizedIpStore) -> (r: String)
    requires
        store.wf(),
    ensures
        r@ == block_of(entries_body(entries@, store.as_map())),
{
    let mut body = String::new();
    let n: usize = entries.len();
    let mut i: usize = 0;
    while i < n
        invariant
            i <= n,
            n == entries@.len(),
            store.wf(),
            body@ == entries_body(entries@.subrange(0, i as int), store.as_map()),
        decreases n - i,
    {
        proof {
            assert(entries@.subrange(0, i + 1).drop_last() =~= entries@.subrange(0, i as int));
            assert(entries@.subrange(0, i + 1).last() == entries@[i as int]);
        }
        let e = &entries[i];
        match store.get_optimized_ip(e.domain.as_str()) {
            Some(ip) => {
                if !ip.as_str().is_empty() {
                    push_line(&mut body, ip.as_str(), e.domain.as_str());
                }
            },
            None => {
                if e.candidate_ips.len() > 0 {
                    let first = &e.candidate_ips[0];
                    if !first.as_str().is_empty() {
                        push_line(&mut body, first.as_str(), e.domain.as_str());
                    }
                }
            },
        }
        i = i + 1;
    }
    proof {
        assert(entries@.subrange(0, n as int) =~= entries@);
    }
    wrap_block(body)
}

/// The curated default pairs written when no scan data is used.
pub open spec fn default_pairs() -> Seq<(Seq<char>, Seq<char>)> {
    seq![
        ("140.82.113.4"@, "github.com"@),
        ("140.82.113.6"@, "api.github.com"@),
        ("140.82.114.4"@, "gist.github.com"@),
        ("185.199.108.153"@, "assets-cdn.github.com"@),
        ("199.232.69.194"@, "github.global.ssl.fastly.net"@),
        ("185.199.108.133"@, "raw.githubusercontent.com"@),
        ("185.199.108.154"@, "github.githubassets.com"@),
        ("140.82.113.10"@, "codeload.github.com"@),
        ("185.199.108.133"@, "cloud.githubusercontent.com"@),
        ("185.199.108.133"@, "avatars.githubusercontent.com"@),
        ("185.199.108.133"@, "objects.githubusercontent.com"@),
        ("185.199.108.153"@, "githubstatus.com"@),
        ("140.82.113.22"@, "collector.github.com"@),
    ]
}

/// Every address and domain of the list is a plain token.
pub proof fn lemma_default_pairs_plain()
    ensures
        forall|i: int|
            0 <= i < default_pairs().len() ==> plain_token((#[trigger] default_pairs()[i]).0)
                && plain_token(default_pairs()[i].1),
{
    reveal_strlit("140.82.113.4");
    reveal_strlit("github.com");
    reveal_strlit("140.82.113.6");
    reveal_strlit("api.github.com");
    reveal_strlit("140.82.114.4");
    reveal_strlit("gist.github.com");
    reveal_strlit("185.199.108.153");
    reveal_strlit("assets-cdn.github.com");
    reveal_strlit("199.232.69.194");
    reveal_strlit("github.global.ssl.fastly.net");
    reveal_strlit("185.199.108.133");
    reveal_strlit("raw.githubusercontent.com");
    reveal_strlit("185.199.108.154");
    reveal_strlit("github.githubassets.com");
    reveal_strlit("140.82.113.10");
    reveal_strlit("codeload.github.com");
    reveal_strlit("cloud.githubusercontent.com");
    reveal_strlit("avatars.githubusercontent.com");
    reveal_strlit("objects.githubusercontent.com");
    reveal_strlit("githubstatus.com");
    reveal_strlit("140.82.113.22");
    reveal_strlit("collector.github.com");
    assert(plain_token("140.82.113.4"@));
    assert(plain_token("github.com"@));
    assert(plain_token("140.82.113.6"@));
    assert(plain_token("api.github.com"@));
    assert(plain_token("140.82.114.4"@));
    assert(plain_token("gist.github.com"@));
    assert(plain_token("185.199.108.153"@));
    assert(plain_token("assets-cdn.github.com"@));
    assert(plain_token("199.232.69.194"@));
    assert(plain_token("github.global.ssl.fastly.net"@));
    assert(plain_token("185.199.108.133"@));
    assert(plain_token("raw.githubusercontent.com"@));
    assert(plain_token("185.199.108.154"@));
    assert(plain_token("github.githubassets.com"@));
    assert(plain_token("140.82.113.10"@));
    assert(plain_token("codeload.github.com"@));
    assert(plain_token("cloud.githubusercontent.com"@));
    assert(plain_token("avatars.githubusercontent.com"@));
    assert(plain_token("objects.githubusercontent.com"@));
    assert(plain_token("githubstatus.com"@));
    assert(plain_token("140.82.113.22"@));
    assert(plain_token("collector.github.com"@));
}

/// The curated default pairs as owned strings.
fn default_pairs_vec() -> (v: Vec<(String, String)>)
    ensures
        pair_views(v@) == default_pairs(),
{
    let mut v: Vec<(String, String)> = Vec::new();
    v.push((String::from_str("140.82.113.4"), String::from_str("github.com")));
    v.push((String::from_str("140.82.113.6"), String::from_str("api.github.com")));
    v.push((String::from_str("140.82.114.4"), String::from_str("gist.github.com")));
    v.push((String::from_str("185.199.108.153"), String::from_str("assets-cdn.github.com")));
    v.push((String::from_str("199.232.69.194"), String::from_str("github.global.ssl.fastly.net")));
    v.push((String::from_str("185.199.108.133"), String::from_str("raw.githubusercontent.com")));
    v.push((String::from_str("185.199.108.154"), String::from_str("github.githubassets.com")));
    v.push((String::from_str("140.82.113.10"), String::from_str("codeload.github.com")));
    v.push((String::from_str("185.199.108.133"), String::from_str("cloud.githubusercontent.com")));
    v.push((String::from_str("185.199.108.133"), String::from_str("avatars.githubusercontent.com")));
    v.push((String::from_str("185.199.108.133"), String::from_str("objects.githubusercontent.com")));
    v.push((String::from_str("185.199.108.153"), String::from_str("githubstatus.com")));
    v.push((String::from_str("140.82.113.22"), String::from_str("collector.github.com")));
    proof {
        assert(pair_views(v@) =~= default_pairs());
    }
    v
}

/// The fixed pair list of the plain command-line block.
pub open spec fn cli_pairs() -> Seq<(Seq<char>, Seq<char>)> {
    seq![
        ("140.82.113.4"@, "github.com"@),
        ("140.82.114.4"@, "gist.github.com"@),
        ("185.199.108.153"@, "assets-cdn.github.com"@),
        ("185.199.109.153"@, "assets-cdn.github.com"@),
        ("185.199.110.153"@, "assets-cdn.github.com"@),
        ("185.199.111.153"@, "assets-cdn.github.com"@),
        ("199.232.69.194"@, "github.global.ssl.fastly.net"@),
        ("185.199.108.133"@, "raw.githubusercontent.com"@),
        ("185.199.109.133"@, "raw.githubusercontent.com"@),
        ("185.199.110.133"@, "raw.githubusercontent.com"@),
        ("185.199.111.133"@, "raw.githubusercontent.com"@),
        ("185.199.108.154"@, "github.githubassets.com"@),
        ("185.199.109.154"@, "github.githubassets.com"@),
        ("185.199.110.154"@, "github.githubassets.com"@),
        ("185.199.111.154"@, "github.githubassets.com"@),
        ("140.82.113.10"@, "codeload.github.com"@),
        ("140.82.114.10"@, "codeload.github.com"@),
        ("185.199.108.133"@, "cloud.githubusercontent.com"@),
        ("185.199.109.133"@, "cloud.githubusercontent.com"@),
        ("185.199.110.133"@, "cloud.githubusercontent.com"@),
        ("185.199.111.133"@, "cloud.githubusercontent.com"@),
        ("185.199.108.153"@, "githubstatus.com"@),
        ("140.82.113.18"@, "api.github.com"@),
        ("140.82.114.18"@, "api.github.com"@),
    ]
}

/// Every address and domain of the list is a plain token.
pub proof fn lemma_cli_pairs_plain()
    ensures
        forall|i: int|
            0 <= i < cli_pairs().len() ==> plain_token((#[trigger] cli_pairs()[i]).0)
                && plain_token(cli_pairs()[i].1),
{
    reveal_strlit("140.82.113.4");
    reveal_strlit("github.com");
    reveal_strlit("140.82.114.4");
    reveal_strlit("gist.github.com");
    reveal_strlit("185.199.108.153");
    reveal_strlit("assets-cdn.github.com");
    reveal_strlit("185.199.109.153");
    reveal_strlit("185.199.110.153");
    reveal_strlit("185.199.111.153");
    reveal_strlit("199.232.69.194");
    reveal_strlit("github.global.ssl.fastly.net");
    reveal_strlit("185.199.108.133");
    reveal_strlit("raw.githubusercontent.com");
    reveal_strlit("185.199.109.133");
    reveal_strlit("185.199.110.133");
    reveal_strlit("185.199.111.133");
    reveal_strlit("185.199.108.154");
    reveal_strlit("github.githubassets.com");
    reveal_strlit("185.199.109.154");
    reveal_strlit("185.199.110.154");
    reveal_strlit("185.199.111.154");
    reveal_strlit("140.82.113.10");
    reveal_strlit("codeload.github.com");
    reveal_strlit("140.82.114.10");
    reveal_strlit("cloud.githubusercontent.com");
    reveal_strlit("githubstatus.com");
    reveal_strlit("140.82.113.18");
    reveal_strlit("api.github.com");
    reveal_strlit("140.82.114.18");
    assert(plain_token("140.82.113.4"@));
    assert(plain_token("github.com"@));
    assert(plain_token("140.82.114.4"@));
    assert(plain_token("gist.github.com"@));
    assert(plain_token("185.199.108.153"@));
    assert(plain_token("assets-cdn.github.com"@));
    assert(plain_token("185.199.109.153"@));
    assert(plain_token("185.199.110.153"@));
    assert(plain_token("185.199.111.153"@));
    assert(plain_token("199.232.69.194"@));
    assert(plain_token("github.global.ssl.fastly.net"@));
    assert(plain_token("185.199.108.133"@));
    assert(plain_token("raw.githubusercontent.com"@));
    assert(plain_token("185.199.109.133"@));
    assert(plain_token("185.199.110.133"@));
    assert(plain_token("185.199.111.133"@));
    assert(plain_token("185.199.108.154"@));
    assert(plain_token("github.githubassets.com"@));
    assert(plain_token("185.199.109.154"@));
    assert(plain_token("185.199.110.154"@));
    assert(plain_token("185.199.111.154"@));
    assert(plain_token("140.82.113.10"@));
    assert(plain_token("codeload.github.com"@));
    assert(plain_token("140.82.114.10"@));
    assert(plain_token("cloud.githubusercontent.com"@));
    assert(plain_token("githubstatus.com"@));
    assert(plain_token("140.82.113.18"@));
    assert(plain_token("api.github.com"@));
    assert(plain_token("140.82.114.18"@));
}

/// The fixed command-line pairs as owned strings.
fn cli_pairs_vec() -> (v: Vec<(String, String)>)
    ensures
        pair_views(v@) == cli_pairs(),
{
    let mut v: Vec<(String, String)> = Vec::new();
    v.push((String::from_str("140.82.113.4"), String::from_str("github.com")));
    v.push((String::from_str("140.82.114.4"), String::from_str("gist.github.com")));
    v.push((String::from_str("185.199.108.153"), String::from_str("assets-cdn.github.com")));
    v.push((String::from_str("185.199.109.153"), String::from_str("assets-cdn.github.com")));
    v.push((String::from_str("185.199.110.153"), String::from_str("assets-cdn.github.com")));
    v.push((String::from_str("185.199.111.153"), String::from_str("assets-cdn.github.com")));
    v.push((String::from_str("199.232.69.194"), String::from_str("github.global.ssl.fastly.net")));
    v.push((String::from_str("185.199.108.133"), String::from_str("raw.githubusercontent.com")));
    v.push((String::from_str("185.199.109.133"), String::from_str("raw.githubusercontent.com")));
    v.push((String::from_str("185.199.110.133"), String::from_str("raw.githubusercontent.com")));
    v.push((String::from_str("185.199.111.133"), String::from_str("raw.githubusercontent.com")));
    v.push((String::from_str("185.199.108.154"), String::from_str("github.githubassets.com")));
    v.push((String::from_str("185.199.109.154"), String::from_str("github.githubassets.com")));
    v.push((String::from_str("185.199.110.154"), String::from_str("github.githubassets.com")));
    v.push((String::from_str("185.199.111.154"), String::from_str("github.githubassets.com")));
    v.push((String::from_str("140.82.113.10"), String::from_str("codeload.github.com")));
    v.push((String::from_str("140.82.114.10"), String::from_str("codeload.github.com")));
    v.push((String::from_str("185.199.108.133"), String::from_str("cloud.githubusercontent.com")));
    v.push((String::from_str("185.199.109.133"), String::from_str("cloud.githubusercontent.com")));
    v.push((String::from_str("185.199.110.133"), String::from_str("cloud.githubusercontent.com")));
    v.push((String::from_str("185.199.111.133"), String::from_str("cloud.githubusercontent.com")));
    v.push((String::from_str("185.199.108.153"), String::from_str("githubstatus.com")));
    v.push((String::from_str("140.82.113.18"), String::from_str("api.github.com")));
    v.push((String::from_str("140.82.114.18"), String::from_str("api.github.com")));
    proof {
        assert(pair_views(v@) =~= cli_pairs());
    }
    v
}

/// The managed block holding the curated default pairs.
pub fn build_default_hosts_text() -> (r: String)
    ensures
        r@ == block_of(pairs_body(default_pairs())),
{
    let pairs = default_pairs_vec();
    build_pairs_text(&pairs)
}

/// The default managed block, encoded for writing.
pub fn build_default_hosts_content() -> (r: Vec<u8>)
    ensures
        r@ == vstd::utf8::encode_utf8(block_of(pairs_body(default_pairs()))),
{
    let text = build_default_hosts_text();
    text.as_str().as_bytes_vec()
}

/// The managed block for registry entries against the store, encoded.
pub fn build_hosts_content(entries: &Vec<DomainEntry>, store: &OptimizedIpStore) -> (r: Vec<u8>)
    requires
        store.wf(),
    ensures
        r@ == vstd::utf8::encode_utf8(block_of(entries_body(entries@, store.as_map()))),
{
    let text = build_hosts_text(entries, store);
    text.as_str().as_bytes_vec()
}

/// The fixed command-line block, encoded for appending.
pub fn get_append_bytes() -> (r: Vec<u8>)
    ensures
        r@ == vstd::utf8::encode_utf8(block_of(pairs_body(cli_pairs()))),
{
    let pairs = cli_pairs_vec();
    let text = build_pairs_text(&pairs);
    text.as_str().as_bytes_vec()
}


/// The body enable writes for the registry tuples against a committed
/// mapping: the committed address where one exists, else the first
/// candidate; a domain with neither contributes no line.
pub open spec fn registry_body(
    rs: Seq<(Seq<char>, Seq<Seq<char>>)>,
    m: Map<Seq<char>, Seq<char>>,
) -> Seq<char>
    decreases rs.len(),
{
    if rs.len() == 0 {
        Seq::empty()
    } else {
        let prefix = registry_body(rs.drop_last(), m);
        let d = rs.last().0;
        let ips = rs.last().1;
        let ip = if m.contains_key(d) {
            m[d]
        } else if ips.len() > 0 {
            ips[0]
        } else {
            Seq::<char>::empty()
        };
        if ip.len() > 0 {
            prefix + host_line(ip, d)
        } else {
            prefix
        }
    }
}

/// Entries that mirror the registry tuples produce the registry body.
proof fn lemma_entries_body_matches(
    entries: Seq<DomainEntry>,
    rs: Seq<(Seq<char>, Seq<Seq<char>>)>,
    m: Map<Seq<char>, Seq<char>>,
)
    requires
        entries.len() == rs.len(),
        forall|i: int|
            0 <= i < entries.len() ==> (#[trigger] entries[i]).domain@ == rs[i].0
                && entries[i].ips() == rs[i].1,
    ensures
        entries_body(entries, m) == registry_body(rs, m),
    decreases entries.len(),
{
    if entries.len() > 0 {
        let ep = entries.drop_last();
        let rp = rs.drop_last();
        assert(forall|i: int| 0 <= i < ep.len() ==> ep[i] == entries[i]);
        assert(forall|i: int| 0 <= i < rp.len() ==> rp[i] == rs[i]);
        lemma_entries_body_matches(ep, rp, m);
        assert(entries[entries.len() - 1] == entries.last());
        assert(chosen_ip(entries.last(), m) == {
            let d = rs.last().0;
            let ips = rs.last().1;
            if m.contains_key(d) {
                m[d]
            } else if ips.len() > 0 {
                ips[0]
            } else {
                Seq::<char>::empty()
            }
        });
    }
}

/// The block content one enable call appends: the registry block against the
/// store's mapping when optimization is requested and data exists, else the
/// curated default block.
pub open spec fn enable_block(
    use_optimized: bool,
    has_data: bool,
    m: Map<Seq<char>, Seq<char>>,
) -> Seq<char> {
    if use_optimized && has_data {
        block_of(registry_body(registry_spec(), m))
    } else {
        block_of(pairs_body(default_pairs()))
    }
}

/// Rewrites content to the enabled state: removes any present managed block
/// first, so a second call refreshes the block instead of stacking one, then
/// appends the freshly built block.  Fails only on an inconsistent block.
pub fn enable_with_ips(content: &str, use_optimized: bool, store: &OptimizedIpStore) -> (r: Result<
    String,
    HostsError,
>)
    requires
        store.wf(),
    ensures
        r is Ok <==> (!has_block(content@) || has_end_after(content@)),
        r matches Ok(out) ==> out@ == strip_block(content@) + enable_block(
            use_optimized,
            store.records@.len() > 0,
            store.as_map(),
        ),
{
    let stripped = match disable(content) {
        Ok(t) => t,
        Err(e) => {
            return Err(e);
        },
    };
    let has_data = store.has_optimized_ips();
    let block = if use_optimized && has_data {
        let entries = get_domain_candidates();
        let t = build_hosts_text(&entries, store);
        proof {
            lemma_entries_body_matches(entries@, registry_spec(), store.as_map());
        }
        t
    } else {
        build_default_hosts_text()
    };
    let mut out = stripped;
    out.append(block.as_str());
    Ok(out)
}

/// Enables acceleration with the curated default pairs.
pub fn enable(content: &str) -> (r: Result<String, HostsError>)
    ensures
        r is Ok <==> (!has_block(content@) || has_end_after(content@)),
        r matches Ok(out) ==> out@ == strip_block(content@) + block_of(pairs_body(default_pairs())),
{
    let store = OptimizedIpStore::new();
    enable_with_ips(content, false, &store)
}

/// Enables acceleration with the scan's committed addresses, falling back to
/// the curated defaults while the store holds no data.
pub fn enable_optimized(content: &str, store: &OptimizedIpStore) -> (r: Result<String, HostsError>)
    requires
        store.wf(),
    ensures
        r is Ok <==> (!has_block(content@) || has_end_after(content@)),
        r matches Ok(out) ==> out@ == strip_block(content@) + enable_block(
            true,
            store.records@.len() > 0,
            store.as_map(),
        ),
{
    enable_with_ips(content, true, store)
}


/// Where the markers sit in a freshly built block over a hash-free body:
/// each occurs exactly once, the opening marker right after the leading
/// newline and the closing marker right before the final newline.
proof fn lemma_block_markers(body: Seq<char>)
    requires
        no_char(body, '#'),
    ensures
        block_of(body).len() == body.len() + 61,
        block_of(body)[0] == '\n',
        block_of(body).last() == '\n',
        occurs_only_at(block_of(body), start_marker(), 1),
        occurs_only_at(block_of(body), end_marker(), body.len() + 32int),
{
    lemma_marker_chars();
    let bl = block_of(body);
    let n = body.len() as int;
    assert(bl.len() == n + 61);
    assert(bl[0] == '\n');
    assert(bl.last() == '\n');
    assert forall|k: int| 0 <= k < 30 implies bl[1 + k] == start_marker()[k] by {
        assert((nl() + start_marker())[1 + k] == start_marker()[k]);
        assert((nl() + start_marker() + nl())[1 + k] == (nl() + start_marker())[1 + k]);
        assert((nl() + start_marker() + nl() + body)[1 + k] == (nl() + start_marker() + nl())[1
            + k]);
        assert((nl() + start_marker() + nl() + body + end_marker())[1 + k] == (nl()
            + start_marker() + nl() + body)[1 + k]);
        assert(bl[1 + k] == (nl() + start_marker() + nl() + body + end_marker())[1 + k]);
    }
    assert(bl[31] == '\n') by {
        assert((nl() + start_marker() + nl())[31] == nl()[0]);
        assert((nl() + start_marker() + nl() + body)[31] == (nl() + start_marker() + nl())[31]);
        assert((nl() + start_marker() + nl() + body + end_marker())[31] == (nl() + start_marker()
            + nl() + body)[31]);
        assert(bl[31] == (nl() + start_marker() + nl() + body + end_marker())[31]);
    }
    assert forall|k: int| 0 <= k < n implies bl[32 + k] == body[k] by {
        assert((nl() + start_marker() + nl() + body)[32 + k] == body[k]);
        assert((nl() + start_marker() + nl() + body + end_marker())[32 + k] == (nl()
            + start_marker() + nl() + body)[32 + k]);
        assert(bl[32 + k] == (nl() + start_marker() + nl() + body + end_marker())[32 + k]);
    }
    assert forall|k: int| 0 <= k < 28 implies bl[n + 32 + k] == end_marker()[k] by {
        assert((nl() + start_marker() + nl() + body + end_marker())[n + 32 + k]
            == end_marker()[k]);
        assert(bl[n + 32 + k] == (nl() + start_marker() + nl() + body + end_marker())[n + 32
            + k]);
    }
    assert forall|p: int| 0 <= p < bl.len() && bl[p] == '#' implies p == 1 || p == n + 32 by {
        if p == 0 || p == 31 || p == bl.len() - 1 {
            assert(bl[p] == '\n');
        } else if 1 <= p < 31 {
            assert(bl[p] == start_marker()[p - 1]);
            if p != 1 {
                assert(start_marker()[p - 1] != '#');
            }
        } else if 32 <= p < n + 32 {
            assert(bl[p] == body[p - 32]);
            assert(body[p - 32] != '#');
        } else {
            assert(n + 32 <= p < n + 60);
            assert(bl[p] == end_marker()[p - (n + 32)]);
            if p != n + 32 {
                assert(end_marker()[p - (n + 32)] != '#');
            }
        }
    }
    assert(occurs_at(bl, start_marker(), 1));
    assert(occurs_at(bl, end_marker(), n + 32));
    assert forall|p: int| occurs_at(bl, start_marker(), p) implies p == 1 by {
        assert(bl[p] == start_marker()[0]);
        assert(bl[p] == '#');
        if p == n + 32 {
            assert(p + 30 <= bl.len());
            assert(false);
        }
    }
    assert forall|p: int| occurs_at(bl, end_marker(), p) implies p == n + 32 by {
        assert(bl[p] == end_marker()[0]);
        assert(bl[p] == '#');
        if p == 1 {
            assert(bl[22] == end_marker()[21]);
            assert(bl[22] == start_marker()[21]);
            assert(false);
        }
    }
}

/// Appending a fresh block to content free of both markers: the block's own
/// markers are the first (and only) ones in the whole text, and stripping
/// the block restores the content exactly, character for character.
pub proof fn lemma_strip_appended_block(c: Seq<char>, body: Seq<char>)
    requires
        !contains_pat(c, start_marker()),
        !contains_pat(c, end_marker()),
        no_char(body, '#'),
    ensures
        has_block(c + block_of(body)),
        has_end_after(c + block_of(body)),
        start_pos(c + block_of(body)) == c.len() + 1int,
        end_pos(c + block_of(body)) == c.len() + body.len() + 32,
        strip_block(c + block_of(body)) == c,
        occurs_only_at(c + block_of(body), start_marker(), c.len() + 1int),
{
    lemma_marker_chars();
    lemma_block_markers(body);
    let bl = block_of(body);
    let t = c + bl;
    let n = c.len() as int;
    let m = body.len() as int;
    assert forall|i: int| occurs_at(t, start_marker(), i) implies i == n + 1 by {
        lemma_no_straddle_newline(c, bl, start_marker(), i);
        if i + start_marker().len() <= n {
            assert(occurs_at(c, start_marker(), i));
            assert(contains_pat(c, start_marker()));
        } else {
            assert(occurs_at(bl, start_marker(), i - n));
            assert(i - n == 1);
        }
    }
    assert forall|i: int| occurs_at(t, end_marker(), i) implies i == n + m + 32 by {
        lemma_no_straddle_newline(c, bl, end_marker(), i);
        if i + end_marker().len() <= n {
            assert(occurs_at(c, end_marker(), i));
            assert(contains_pat(c, end_marker()));
        } else {
            assert(occurs_at(bl, end_marker(), i - n));
            assert(i - n == m + 32);
        }
    }
    lemma_occurs_in_suffix(c, bl, start_marker(), 1);
    assert(occurs_at(t, start_marker(), n + 1));
    assert(first_occurrence(t, start_marker(), n + 1));
    lemma_start_pos_is(t, n + 1);
    lemma_occurs_in_suffix(c, bl, end_marker(), m + 32);
    assert(occurs_at(t, end_marker(), n + m + 32));
    assert(first_occurrence_from(t, end_marker(), n + 1, n + m + 32));
    lemma_end_pos_is(t, n + m + 32);
    assert(t.subrange(0, n + 1) =~= c + nl()) by {
        assert(t[n] == bl[0]);
        assert(forall|k: int| 0 <= k < n ==> t[k] == c[k]);
    }
    assert((c + nl()).last() == '\n');
    assert(trim_one_nl_end(c + nl()) =~= c);
    assert(n + m + 32 + end_marker().len() == t.len() - 1);
    assert(t.subrange(t.len() - 1, t.len() as int) =~= nl()) by {
        assert(t[t.len() - 1] == bl[bl.len() - 1]);
    }
    assert(trim_one_nl_start(nl()) =~= Seq::<char>::empty());
    assert(strip_block(t) =~= c);
}

/// No line built from hash-free pairs holds a hash sign.
proof fn lemma_host_line_no_hash(ip: Seq<char>, domain: Seq<char>)
    requires
        no_char(ip, '#'),
        no_char(domain, '#'),
    ensures
        no_char(host_line(ip, domain), '#'),
{
    reveal_strlit(" ");
    reveal_strlit("\n");
    let line = host_line(ip, domain);
    assert forall|k: int| 0 <= k < line.len() implies line[k] != '#' by {
        if k < ip.len() {
            assert(line[k] == ip[k]);
        } else if k == ip.len() {
            assert(line[k] == ' ');
        } else if k < ip.len() + 1 + domain.len() {
            assert(line[k] == domain[k - ip.len() - 1]);
        } else {
            assert(line[k] == '\n');
        }
    }
}

/// A body of hash-free pairs is hash-free.
proof fn lemma_pairs_body_no_hash(pairs: Seq<(Seq<char>, Seq<char>)>)
    requires
        forall|i: int|
            0 <= i < pairs.len() ==> no_char((#[trigger] pairs[i]).0, '#') && no_char(
                pairs[i].1,
                '#',
            ),
    ensures
        no_char(pairs_body(pairs), '#'),
    decreases pairs.len(),
{
    if pairs.len() > 0 {
        let prefix = pairs.drop_last();
        assert(forall|i: int| 0 <= i < prefix.len() ==> prefix[i] == pairs[i]);
        lemma_pairs_body_no_hash(prefix);
        assert(pairs[pairs.len() - 1] == pairs.last());
        lemma_host_line_no_hash(pairs.last().0, pairs.last().1);
        let body = pairs_body(pairs);
        let pb = pairs_body(prefix);
        let line = host_line(pairs.last().0, pairs.last().1);
        assert forall|k: int| 0 <= k < body.len() implies body[k] != '#' by {
            if k < pb.len() {
                assert(body[k] == pb[k]);
            } else {
                assert(body[k] == line[k - pb.len()]);
            }
        }
    }
}

/// A registry body over hash-free tuples and a hash-free mapping is hash-free.
proof fn lemma_registry_body_no_hash(
    rs: Seq<(Seq<char>, Seq<Seq<char>>)>,
    m: Map<Seq<char>, Seq<char>>,
)
    requires
        forall|i: int|
            0 <= i < rs.len() ==> no_char((#[trigger] rs[i]).0, '#') && (rs[i].1.len() > 0
                ==> no_char(rs[i].1[0], '#')),
        forall|d: Seq<char>| #[trigger] m.contains_key(d) ==> no_char(m[d], '#'),
    ensures
        no_char(registry_body(rs, m), '#'),
    decreases rs.len(),
{
    if rs.len() > 0 {
        let prefix = rs.drop_last();
        assert(forall|i: int| 0 <= i < prefix.len() ==> prefix[i] == rs[i]);
        lemma_registry_body_no_hash(prefix, m);
        assert(rs[rs.len() - 1] == rs.last());
        let d = rs.last().0;
        let ips = rs.last().1;
        let ip = if m.contains_key(d) {
            m[d]
        } else if ips.len() > 0 {
            ips[0]
        } else {
            Seq::<char>::empty()
        };
        if ip.len() > 0 {
            lemma_host_line_no_hash(ip, d);
            let body = registry_body(rs, m);
            let pb = registry_body(prefix, m);
            let line = host_line(ip, d);
            assert forall|k: int| 0 <= k < body.len() implies body[k] != '#' by {
                if k < pb.len() {
                    assert(body[k] == pb[k]);
                } else {
                    assert(body[k] == line[k - pb.len()]);
                }
            }
        }
    }
}

/// Every address a well-formed store commits is a plain token.
proof fn lemma_store_map_plain(store: &OptimizedIpStore)
    requires
        store.wf(),
    ensures
        forall|d: Seq<char>|
            #[trigger] store.as_map().contains_key(d) ==> plain_token(store.as_map()[d]),
{
    lemma_store_map_of(store.records@);
    assert forall|d: Seq<char>| #[trigger] store.as_map().contains_key(d) implies plain_token(
        store.as_map()[d],
    ) by {
        let k = choose|k: int|
            0 <= k < store.records@.len() && (#[trigger] store.records@[k]).domain@ == d;
        assert(store.as_map()[store.records@[k].domain@] == store.records@[k].ip@);
        assert(plain_token(store.records@[k].ip@));
    }
}

/// The block an enable call appends has a hash-free body.
proof fn lemma_enable_block_body(use_optimized: bool, has_data: bool, m: Map<Seq<char>, Seq<char>>)
    requires
        forall|d: Seq<char>| #[trigger] m.contains_key(d) ==> no_char(m[d], '#'),
    ensures
        enable_block(use_optimized, has_data, m) == block_of(
            if use_optimized && has_data {
                registry_body(registry_spec(), m)
            } else {
                pairs_body(default_pairs())
            },
        ),
        no_char(
            if use_optimized && has_data {
                registry_body(registry_spec(), m)
            } else {
                pairs_body(default_pairs())
            },
            '#',
        ),
{
    if use_optimized && has_data {
        lemma_registry_wf();
        assert forall|i: int|
            0 <= i < registry_spec().len() implies no_char(
            (#[trigger] registry_spec()[i]).0,
            '#',
        ) && (registry_spec()[i].1.len() > 0 ==> no_char(registry_spec()[i].1[0], '#')) by {
            assert(plain_token(registry_spec()[i].0));
            if registry_spec()[i].1.len() > 0 {
                assert(plain_token(registry_spec()[i].1[0]));
            }
        }
        lemma_registry_body_no_hash(registry_spec(), m);
    } else {
        lemma_default_pairs_plain();
        assert forall|i: int|
            0 <= i < default_pairs().len() implies no_char((#[trigger] default_pairs()[i]).0, '#')
            && no_char(default_pairs()[i].1, '#') by {
            assert(plain_token(default_pairs()[i].0));
            assert(plain_token(default_pairs()[i].1));
        }
        lemma_pairs_body_no_hash(default_pairs());
    }
}

/// Round trip: enabling on content free of both markers and then disabling
/// restores the content exactly, character for character.  The store's
/// committed mapping may hold only plain tokens, which a well-formed store
/// guarantees.
pub proof fn lemma_enable_disable_round_trip(
    c: Seq<char>,
    use_optimized: bool,
    has_data: bool,
    m: Map<Seq<char>, Seq<char>>,
)
    requires
        !contains_pat(c, start_marker()),
        !contains_pat(c, end_marker()),
        forall|d: Seq<char>| #[trigger] m.contains_key(d) ==> no_char(m[d], '#'),
    ensures
        has_block(c + enable_block(use_optimized, has_data, m)),
        has_end_after(c + enable_block(use_optimized, has_data, m)),
        strip_block(c + enable_block(use_optimized, has_data, m)) == c,
{
    lemma_enable_block_body(use_optimized, has_data, m);
    if use_optimized && has_data {
        lemma_strip_appended_block(c, registry_body(registry_spec(), m));
    } else {
        lemma_strip_appended_block(c, pairs_body(default_pairs()));
    }
}

/// Round trip against a live store: the block that enabling writes over a
/// well-formed store onto content free of both markers, disabling removes
/// exactly, restoring the content character for character.
pub proof fn lemma_store_round_trip(c: Seq<char>, use_optimized: bool, store: &OptimizedIpStore)
    requires
        store.wf(),
        !contains_pat(c, start_marker()),
        !contains_pat(c, end_marker()),
    ensures
        has_block(c + enable_block(use_optimized, store.records@.len() > 0, store.as_map())),
        has_end_after(c + enable_block(use_optimized, store.records@.len() > 0, store.as_map())),
        strip_block(c + enable_block(use_optimized, store.records@.len() > 0, store.as_map()))
            == c,
{
    lemma_store_map_plain(store);
    lemma_enable_disable_round_trip(
        c,
        use_optimized,
        store.records@.len() > 0,
        store.as_map(),
    );
}

/// Idempotence: enabling a second time on the result of a first enable
/// yields the very content a single enable with the second call's choices
/// would yield, and that content holds exactly one opening marker.
pub proof fn lemma_enable_idempotent(
    c: Seq<char>,
    use1: bool,
    has1: bool,
    m1: Map<Seq<char>, Seq<char>>,
    use2: bool,
    has2: bool,
    m2: Map<Seq<char>, Seq<char>>,
)
    requires
        !contains_pat(c, start_marker()),
        !contains_pat(c, end_marker()),
        forall|d: Seq<char>| #[trigger] m1.contains_key(d) ==> no_char(m1[d], '#'),
        forall|d: Seq<char>| #[trigger] m2.contains_key(d) ==> no_char(m2[d], '#'),
    ensures
        strip_block(c + enable_block(use1, has1, m1)) + enable_block(use2, has2, m2) == c
            + enable_block(use2, has2, m2),
        occurs_only_at(
            c + enable_block(use2, has2, m2),
            start_marker(),
            c.len() + 1int,
        ),
{
    lemma_enable_disable_round_trip(c, use1, has1, m1);
    lemma_enable_block_body(use2, has2, m2);
    if use2 && has2 {
        lemma_strip_appended_block(c, registry_body(registry_spec(), m2));
    } else {
        lemma_strip_appended_block(c, pairs_body(default_pairs()));
    }
}


/// The platform path of the hosts file.
pub fn get_hosts_path(windows: bool) -> (r: &'static str)
    ensures
        windows ==> r@ == "C:\\Windows\\System32\\drivers\\etc\\hosts"@,
        !windows ==> r@ == "/etc/hosts"@,
{
    if windows {
        "C:\\Windows\\System32\\drivers\\etc\\hosts"
    } else {
        "/etc/hosts"
    }
}

/// Why the hosts file cannot be edited: it is missing, or appending to it is
/// not permitted.  The two stay distinct so the caller can suggest elevating
/// privileges only where that would help.
#[derive(Debug, Clone, Copy, PartialEq, Eq, Structural)]
pub enum PermissionError {
    FileNotFound,
    PermissionDenied,
}

impl PermissionError {
    /// The user-facing message: the not-found message names the path, the
    /// denied message names the platform's way to elevate.
    pub fn message(&self, path: &str, windows: bool) -> (r: String)
        ensures
            *self == PermissionError::FileNotFound ==> r@ == "hosts file not found: "@ + path@,
            *self == PermissionError::PermissionDenied && windows ==> r@
                == "No permission to modify hosts file! Please run as Administrator"@,
            *self == PermissionError::PermissionDenied && !windows ==> r@
                == "No permission to modify hosts file! Please run with sudo"@,
    {
        match self {
            PermissionError::FileNotFound => {
                let mut s = String::from_str("hosts file not found: ");
                s.append(path);
                s
            },
            PermissionError::PermissionDenied => {
                if windows {
                    String::from_str("No permission to modify hosts file! Please run as Administrator")
                } else {
                    String::from_str("No permission to modify hosts file! Please run with sudo")
                }
            },
        }
    }
}

/// Decides the permission check from what the caller observed of the file:
/// it must exist and be openable for append, without being changed.
pub fn check_permission(exists: bool, writable: bool) -> (r: Result<(), PermissionError>)
    ensures
        r is Ok <==> exists && writable,
        !exists ==> r == Result::<(), PermissionError>::Err(PermissionError::FileNotFound),
        exists && !writable ==> r == Result::<(), PermissionError>::Err(
            PermissionError::PermissionDenied,
        ),
{
    if !exists {
        Err(PermissionError::FileNotFound)
    } else if !writable {
        Err(PermissionError::PermissionDenied)
    } else {
        Ok(())
    }
}

} // verus!
