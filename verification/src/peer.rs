//! A leaf peer: its identity and addresses, and how it notices that its
//! files changed.

use std::collections::hash_map::DefaultHasher;
use rand::Rng;
use vstd::prelude::*;
use crate::ftp::{expiry, expiry_of, FileRecord};
use crate::hashing::{
    calculate_hash, content_digest, digest, feed_text, listing_digest, text_writes, unit_digest,
    HashInput,
};
use crate::messages::{QueryInitial, RegisterRequest};
use crate::names::copy_names;
use crate::order::{ascending, sort_names};
use crate::seq_facts::{lemma_filter_both, lemma_filter_keeps_all};
use crate::text::{decimal, decimal_string, host_port, last_two_components, last_two_components_of};

verus! {

/// A leaf peer.
#[derive(Debug)]
pub struct Client {
    /// The peer's identifier: the digest of its machine's MAC address and its
    /// directory.
    pub id: u64,
    pub mac: String,
    /// The last two components of the peer's working directory.
    pub dir: String,
    /// The names of the peer's files, owned and downloaded.
    pub files: Vec<String>,
    /// The digest of `files`.
    pub state: u64,
    /// The address of the peer's file server.
    pub ip: String,
    /// The address of the peer's query engine.
    pub ip_qe: String,
    /// The address of the peer's super-peer.
    pub ip_sp: String,
    pub port: String,
    /// Each owned file with the digest of its contents.
    pub file_states: Vec<(String, u64)>,
}

/// A peer is hashed by its MAC address and its directory.
impl HashInput for Client {
    open spec fn hash_writes(&self) -> Seq<Seq<u8>> {
        text_writes(self.mac@) + text_writes(self.dir@)
    }

    fn feed(&self, state: &mut DefaultHasher) {
        feed_text(self.mac.as_str(), state);
        feed_text(self.dir.as_str(), state);
        assert(state@ =~= old(state)@ + self.hash_writes());
    }
}

/// The identifier of the peer with MAC address `mac` in directory `dir`.
pub open spec fn peer_id(mac: Seq<char>, dir: Seq<char>) -> u64 {
    digest(text_writes(mac) + text_writes(dir))
}

/// `a` and `b` are the same peer at the same addresses.
pub open spec fn same_identity(a: Client, b: Client) -> bool {
    &&& a.id == b.id
    &&& a.mac == b.mac
    &&& a.dir == b.dir
    &&& a.ip == b.ip
    &&& a.ip_qe == b.ip_qe
    &&& a.ip_sp == b.ip_sp
    &&& a.port == b.port
}

/// A port for one of the peer's servers, drawn at random.
///
/// Calls `rand::thread_rng().gen_range(20000..65000)`; rand's documentation
/// of `gen_range` says that it returns a value in the half-open range, and
/// the contract says that and nothing of which value.
#[verifier::external_body]
fn random_port() -> (p: u32)
    ensures
        20000 <= p < 65000,
{
    rand::thread_rng().gen_range(20000..65000)
}

/// The names of the peer's owned and downloaded files in ascending order.
pub fn merge_listing(owned: Vec<String>, downloaded: Vec<String>) -> (all: Vec<String>)
    ensures
        ascending(all@),
        all@.to_multiset() == (owned@ + downloaded@).to_multiset(),
{
    let mut entries = owned;
    let mut more = downloaded;
    entries.append(&mut more);
    sort_names(entries)
}

/// The digests of `contents`, one per file.
fn digests(contents: &Vec<Vec<u8>>) -> (d: Vec<u64>)
    ensures
        d@.len() == contents@.len(),
        forall|i: int| 0 <= i < d@.len() ==> #[trigger] d@[i] == content_digest(contents@[i]@),
{
    let mut d: Vec<u64> = Vec::new();
    let mut i: usize = 0;
    while i < contents.len()
        invariant
            i <= contents@.len(),
            d@.len() == i,
            forall|j: int| 0 <= j < i ==> #[trigger] d@[j] == content_digest(contents@[j]@),
        decreases contents@.len() - i,
    {
        d.push(calculate_hash(&contents[i]));
        i = i + 1;
    }
    d
}

impl Client {
    /// The peer with MAC address `mac`, working directory `cwd`, file
    /// listing `files` (each with its contents in `contents`) on the host
    /// `ip_base`: its file server and query engine listen on two ports drawn
    /// at random, its super-peer is reached at `ip_base`, and its identifier
    /// is the digest of `mac` and the last two components of `cwd`.
    pub fn new(mac: String, cwd: &str, files: Vec<String>, contents: &Vec<Vec<u8>>, ip_base: &str) -> (c: Self)
        requires
            files@.len() == contents@.len(),
        ensures
            c.mac == mac,
            c.dir@ == last_two_components(cwd@),
            c.files@ == files@,
            c.state == listing_digest(files),
            c.id == peer_id(c.mac@, c.dir@),
            c.ip_sp@ == ip_base@,
            exists|p1: u32, p2: u32|
                20000 <= p1 < 65000 && 20000 <= p2 < 65000 && c.ip@ == ip_base@ + seq![':']
                    + decimal(p1 as nat) && c.ip_qe@ == ip_base@ + seq![':'] + decimal(p2 as nat)
                    && c.port@ == decimal(p2 as nat),
            c.file_states@.len() == files@.len(),
            forall|i: int|
                0 <= i < files@.len() ==> (#[trigger] c.file_states@[i]).0 == files@[i]
                    && c.file_states@[i].1 == content_digest(contents@[i]@),
    {
        let state = calculate_hash(&files);
        let hashes = digests(contents);
        let mut file_states: Vec<(String, u64)> = Vec::new();
        let mut i: usize = 0;
        while i < files.len()
            invariant
                i <= files@.len(),
                hashes@.len() == files@.len(),
                file_states@.len() == i,
                forall|j: int|
                    0 <= j < i ==> (#[trigger] file_states@[j]).0 == files@[j] && file_states@[j].1
                        == hashes@[j],
            decreases files@.len() - i,
        {
            file_states.push((files[i].clone(), hashes[i]));
            i = i + 1;
        }
        let p1 = random_port();
        let first = decimal_string(p1);
        let p2 = random_port();
        let second = decimal_string(p2);
        let ip = host_port(ip_base, first.as_str());
        let ip_qe = host_port(ip_base, second.as_str());
        let mut c = Client {
            id: 0,
            mac,
            dir: last_two_components_of(cwd),
            files,
            state,
            ip,
            ip_qe,
            ip_sp: String::from_str(ip_base),
            port: second,
            file_states,
        };
        c.id = calculate_hash(&c);
        c
    }

    /// Points the peer at the ports that the configuration gives it on the
    /// host `ip_base`.
    pub fn set_addresses(&mut self, ip_base: &str, ftp_port: &str, qe_port: &str, sp_port: &str)
        ensures
            final(self).ip@ == ip_base@ + seq![':'] + ftp_port@,
            final(self).ip_qe@ == ip_base@ + seq![':'] + qe_port@,
            final(self).ip_sp@ == ip_base@ + seq![':'] + sp_port@,
            final(self).id == old(self).id,
            final(self).mac == old(self).mac,
            final(self).dir == old(self).dir,
            final(self).files == old(self).files,
            final(self).state == old(self).state,
            final(self).port == old(self).port,
            final(self).file_states == old(self).file_states,
    {
        self.ip = host_port(ip_base, ftp_port);
        self.ip_qe = host_port(ip_base, qe_port);
        self.ip_sp = host_port(ip_base, sp_port);
    }

    /// Takes the current file listing: when its digest differs from the
    /// recorded one, records the listing and its digest and returns `true`
    /// (the peer must then register anew).
    pub fn refresh_listing(&mut self, listing: Vec<String>) -> (changed: bool)
        ensures
            changed == (old(self).state != listing_digest(listing)),
            changed ==> final(self).state == listing_digest(listing) && final(self).files == listing,
            !changed ==> final(self).state == old(self).state && final(self).files == old(self).files,
            final(self).file_states == old(self).file_states,
            same_identity(*old(self), *final(self)),
    {
        let current = calculate_hash(&listing);
        if self.state != current {
            self.state = current;
            self.files = listing;
            true
        } else {
            false
        }
    }

    /// The owned files whose contents changed, each with its new digest, in
    /// the order of `file_states`; `contents[i]` is the current contents of
    /// the `i`-th recorded file.
    pub fn changed_files(&self, contents: &Vec<Vec<u8>>) -> (changed: Vec<(String, u64)>)
        requires
            contents@.len() == self.file_states@.len(),
        ensures
            changed@ == changes(self.file_states@, contents@),
    {
        let mut changed: Vec<(String, u64)> = Vec::new();
        let mut i: usize = 0;
        while i < self.file_states.len()
            invariant
                i <= self.file_states@.len(),
                contents@.len() == self.file_states@.len(),
                changed@ == changes(self.file_states@.take(i as int), contents@.take(i as int)),
            decreases self.file_states@.len() - i,
        {
            let new_hash = calculate_hash(&contents[i]);
            proof {
                assert(self.file_states@.take(i + 1).drop_last() =~= self.file_states@.take(i as int));
                assert(contents@.take(i + 1).drop_last() =~= contents@.take(i as int));
            }
            if new_hash != self.file_states[i].1 {
                changed.push((self.file_states[i].0.clone(), new_hash));
            }
            i = i + 1;
        }
        assert(self.file_states@.take(self.file_states@.len() as int) =~= self.file_states@);
        assert(contents@.take(contents@.len() as int) =~= contents@);
        changed
    }

    /// Records `hash` as the digest of the owned file `filename`: its entry
    /// moves to the end with the new digest.
    pub fn record_file_state(&mut self, filename: String, hash: u64)
        ensures
            final(self).file_states@ == with_file_state(old(self).file_states@, filename, hash),
            final(self).files == old(self).files,
            final(self).state == old(self).state,
            same_identity(*old(self), *final(self)),
    {
        let ghost p = other_than(filename@);
        let mut taken: Vec<(String, u64)> = Vec::new();
        std::mem::swap(&mut taken, &mut self.file_states);
        let ghost all = taken@;
        let mut kept: Vec<(String, u64)> = Vec::new();
        for e in it: taken
            invariant
                p == other_than(filename@),
                it.seq() == all,
                kept@ == all.take(it.index() as int).filter(p),
        {
            proof {
                assert(all.take(it.index() + 1) =~= all.take(it.index() as int).push(e));
                all.take(it.index() as int).lemma_filter_push(e, p);
            }
            if e.0 != filename {
                kept.push(e);
            }
        }
        assert(all.take(all.len() as int) =~= all);
        kept.push((filename, hash));
        self.file_states = kept;
    }

    /// Records the new digest of every changed file, one after the other, in
    /// the order of `changes`.
    pub fn apply_file_changes(&mut self, changes: &Vec<(String, u64)>)
        ensures
            final(self).file_states@ == with_file_states(old(self).file_states@, changes@),
            final(self).files == old(self).files,
            final(self).state == old(self).state,
            same_identity(*old(self), *final(self)),
    {
        let mut i: usize = 0;
        while i < changes.len()
            invariant
                i <= changes@.len(),
                self.file_states@ == with_file_states(old(self).file_states@, changes@.take(i as int)),
                self.files == old(self).files,
                self.state == old(self).state,
                same_identity(*old(self), *self),
            decreases changes@.len() - i,
        {
            let name = changes[i].0.clone();
            self.record_file_state(name, changes[i].1);
            proof {
                assert(changes@.take(i + 1).drop_last() =~= changes@.take(i as int));
                assert(changes@.take(i + 1).last() == changes@[i as int]);
            }
            i = i + 1;
        }
        assert(changes@.take(changes@.len() as int) =~= changes@);
    }

    /// The registration of this peer with its super-peer, with one version
    /// per file of its current listing `listing`. Each version is the digest
    /// of the unit value `()`, which feeds the hasher nothing, so every file
    /// is registered with the same version.
    pub fn registration(&self, listing: &Vec<String>) -> (req: RegisterRequest)
        ensures
            req.hash == self.id,
            req.state == self.state,
            req.files@ == self.files@,
            req.ip == self.ip,
            req.ip_qe == self.ip_qe,
            req.file_states@.len() == listing@.len(),
            forall|i: int| 0 <= i < listing@.len() ==> #[trigger] req.file_states@[i] == unit_digest(),
    {
        let mut file_states: Vec<u64> = Vec::new();
        let mut i: usize = 0;
        while i < listing.len()
            invariant
                i <= listing@.len(),
                file_states@.len() == i,
                forall|j: int| 0 <= j < i ==> #[trigger] file_states@[j] == unit_digest(),
            decreases listing@.len() - i,
        {
            file_states.push(calculate_hash(&()));
            i = i + 1;
        }
        RegisterRequest {
            hash: self.id,
            state: self.state,
            files: copy_names(&self.files),
            ip: self.ip.clone(),
            ip_qe: self.ip_qe.clone(),
            file_states,
        }
    }

    /// The query for `filename` that this peer hands its super-peer: a
    /// search (`mess_type` 0) or an invalidation (1).
    pub fn query_request(&self, filename: String, mess_type: u32) -> (q: QueryInitial)
        ensures
            q.request == self.id,
            q.ip_qe == self.ip_qe,
            q.filename == filename,
            q.mess_type == mess_type,
    {
        QueryInitial { request: self.id, ip_qe: self.ip_qe.clone(), filename, mess_type }
    }
}

/// The entries of `states` whose file's digest in `contents` changed, each
/// with its new digest, in order.
pub open spec fn changes(states: Seq<(String, u64)>, contents: Seq<Vec<u8>>) -> Seq<(String, u64)>
    decreases states.len(),
{
    if states.len() == 0 || contents.len() != states.len() {
        Seq::empty()
    } else {
        let rest = changes(states.drop_last(), contents.drop_last());
        let d = content_digest(contents.last()@);
        if d != states.last().1 {
            rest.push((states.last().0, d))
        } else {
            rest
        }
    }
}

/// The record of a copy just downloaded from the server at `ip`: stale at
/// the time the server gave or, where it gave none, `ttr` seconds after
/// `now`.
pub fn downloaded(filename: String, ip: String, ttr: u64, expire_time: u64, state: u64, now: u64) -> (r: FileRecord)
    requires
        expire_time == 0 ==> now + ttr <= u64::MAX,
    ensures
        r == (FileRecord { filename, ip, ttr, expire_time: expiry(expire_time, ttr, now) as u64, state }),
{
    FileRecord { filename, ip, ttr, expire_time: expiry_of(expire_time, ttr, now), state }
}


/// Taking the same listing twice in a row reports a change at most the first
/// time: whatever the first call decided, the digest it leaves recorded is
/// the listing's, so the second call finds no change.
pub proof fn law_refresh_listing_settles(before: u64, listing: Vec<String>, after: u64)
    requires
        before != listing_digest(listing) ==> after == listing_digest(listing),
        before == listing_digest(listing) ==> after == before,
    ensures
        !(after != listing_digest(listing)),
{
}

/// After a new digest is recorded for a file, the file has exactly one
/// entry, the last, with that digest; the entries of other files stay in
/// order.
pub proof fn law_recorded_file_state_is_unique(states: Seq<(String, u64)>, filename: String, hash: u64)
    ensures
        ({
            let after = with_file_state(states, filename, hash);
            &&& after.last() == (filename, hash)
            &&& forall|i: int| 0 <= i < after.len() - 1 ==> (#[trigger] after[i]).0@ != filename@
        }),
{
    let p = other_than(filename@);
    let kept = states.filter(p);
    assert forall|i: int| 0 <= i < kept.len() implies (#[trigger] kept[i]).0@ != filename@ by {
        states.lemma_filter_pred(p, i);
    }
    let after = kept.push((filename, hash));
    assert forall|i: int| 0 <= i < after.len() - 1 implies (#[trigger] after[i]).0@ != filename@ by {
        assert(after[i] == kept[i]);
    }
}

/// The entry is not that of the file `name`.
pub open spec fn other_than(name: Seq<char>) -> spec_fn((String, u64)) -> bool {
    |e: (String, u64)| e.0@ != name
}

/// `states` after recording `hash` as the digest of `filename`: the file's
/// entries go, and one with the new digest comes at the end.
pub open spec fn with_file_state(states: Seq<(String, u64)>, filename: String, hash: u64) -> Seq<
    (String, u64),
> {
    states.filter(other_than(filename@)).push((filename, hash))
}

/// `states` after recording each of `changes`, one after the other.
pub open spec fn with_file_states(states: Seq<(String, u64)>, changes: Seq<(String, u64)>) -> Seq<
    (String, u64),
>
    decreases changes.len(),
{
    if changes.len() == 0 {
        states
    } else {
        with_file_state(
            with_file_states(states, changes.drop_last()),
            changes.last().0,
            changes.last().1,
        )
    }
}

/// No two entries of `s` are of files with the same name.
pub open spec fn distinct_names(s: Seq<(String, u64)>) -> bool {
    forall|i: int, j: int| #![trigger s[i], s[j]] 0 <= i < j < s.len() ==> s[i].0@ != s[j].0@
}

/// The names of the files of the entries of `s`.
pub open spec fn names_in(s: Seq<(String, u64)>) -> Set<Seq<char>> {
    Set::new(|n: Seq<char>| exists|k: int| 0 <= k < s.len() && #[trigger] s[k].0@ == n)
}

/// The entry is of a file whose name is not in `names`.
pub open spec fn outside(names: Set<Seq<char>>) -> spec_fn((String, u64)) -> bool {
    |e: (String, u64)| !names.contains(e.0@)
}

/// The `i`-th recorded file's contents `contents[i]` no longer have its
/// recorded digest.
pub open spec fn is_changed(states: Seq<(String, u64)>, contents: Seq<Vec<u8>>, i: int) -> bool {
    content_digest(contents[i]@) != states[i].1
}

/// Recording changes of distinct files keeps the other entries in order and
/// puts the changes after them.
proof fn lemma_with_file_states(t: Seq<(String, u64)>, ch: Seq<(String, u64)>)
    requires
        distinct_names(ch),
    ensures
        with_file_states(t, ch) == t.filter(outside(names_in(ch))) + ch,
    decreases ch.len(),
{
    if ch.len() == 0 {
        assert forall|i: int| 0 <= i < t.len() implies outside(names_in(ch))(#[trigger] t[i]) by {}
        lemma_filter_keeps_all(t, outside(names_in(ch)));
        assert(t + ch =~= t);
    } else {
        let rest = ch.drop_last();
        let x = ch.last();
        let n = ch.len() - 1;
        assert(distinct_names(rest)) by {
            assert forall|i: int, j: int| 0 <= i < j < rest.len() implies rest[i].0@ != rest[j].0@ by {
                assert(rest[i] == ch[i] && rest[j] == ch[j]);
            }
        }
        lemma_with_file_states(t, rest);
        let p = other_than(x.0@);
        let kept = t.filter(outside(names_in(rest)));
        Seq::filter_distributes_over_add(kept, rest, p);
        assert forall|i: int| 0 <= i < rest.len() implies p(#[trigger] rest[i]) by {
            assert(ch[i] == rest[i] && ch[n] == x);
        }
        lemma_filter_keeps_all(rest, p);
        assert(names_in(ch) =~= names_in(rest).insert(x.0@)) by {
            assert forall|m: Seq<char>| names_in(ch).contains(m) implies names_in(rest).insert(x.0@).contains(m) by {
                let k = choose|k: int| 0 <= k < ch.len() && #[trigger] ch[k].0@ == m;
                if k < n {
                    assert(rest[k] == ch[k]);
                }
            }
            assert forall|m: Seq<char>| names_in(rest).insert(x.0@).contains(m) implies names_in(ch).contains(m) by {
                if m == x.0@ {
                    assert(ch[n].0@ == m);
                } else {
                    let k = choose|k: int| 0 <= k < rest.len() && #[trigger] rest[k].0@ == m;
                    assert(ch[k] == rest[k]);
                }
            }
        }
        assert forall|e: (String, u64)| #[trigger] outside(names_in(ch))(e) == (outside(names_in(rest))(e) && p(e)) by {}
        lemma_filter_both(t, outside(names_in(rest)), p, outside(names_in(ch)));
        assert(rest.push(x) =~= ch);
        assert((t.filter(outside(names_in(ch))) + rest).push(x) =~= t.filter(outside(names_in(ch))) + ch);
    }
}

/// The digest that the `i`-th file's current contents have.
pub open spec fn current(contents: Seq<Vec<u8>>, i: int) -> u64 {
    content_digest(contents[i]@)
}

/// Every change in `ch` is of a changed file of `states`, with the digest
/// of its current contents.
#[verifier::opaque]
pub open spec fn only_changed_reported(
    states: Seq<(String, u64)>,
    contents: Seq<Vec<u8>>,
    ch: Seq<(String, u64)>,
) -> bool {
    forall|k: int|
        #![trigger ch[k]]
        0 <= k < ch.len() ==> exists|i: int|
            0 <= i < states.len() && is_changed(states, contents, i) && ch[k].0 == states[i].0
                && ch[k].1 == current(contents, i)
}

/// Every changed file of `states` has a change in `ch`, with the digest of
/// its current contents.
#[verifier::opaque]
pub open spec fn all_changed_reported(
    states: Seq<(String, u64)>,
    contents: Seq<Vec<u8>>,
    ch: Seq<(String, u64)>,
) -> bool {
    forall|i: int|
        #![trigger states[i]]
        0 <= i < states.len() && is_changed(states, contents, i) ==> exists|k: int|
            0 <= k < ch.len() && ch[k].0 == states[i].0 && ch[k].1 == current(contents, i)
}

/// Every file of `states` has an entry in `after` with the digest of its
/// current contents.
#[verifier::opaque]
pub open spec fn every_file_current(
    states: Seq<(String, u64)>,
    contents: Seq<Vec<u8>>,
    after: Seq<(String, u64)>,
) -> bool {
    forall|i: int|
        #![trigger states[i]]
        0 <= i < states.len() ==> exists|k: int|
            0 <= k < after.len() && after[k].0 == states[i].0 && after[k].1 == current(contents, i)
}

/// Every entry of `after` is of a file of `states`, with the digest of its
/// current contents.
#[verifier::opaque]
pub open spec fn only_files_current(
    states: Seq<(String, u64)>,
    contents: Seq<Vec<u8>>,
    after: Seq<(String, u64)>,
) -> bool {
    forall|k: int|
        #![trigger after[k]]
        0 <= k < after.len() ==> exists|i: int|
            0 <= i < states.len() && after[k].0 == states[i].0 && after[k].1 == current(contents, i)
}

/// Each reported change is a changed file with its new digest.
proof fn lemma_changes_are_changed(states: Seq<(String, u64)>, contents: Seq<Vec<u8>>)
    requires
        contents.len() == states.len(),
    ensures
        only_changed_reported(states, contents, changes(states, contents)),
    decreases states.len(),
{
    reveal(only_changed_reported);
    if states.len() > 0 {
        let rs = states.drop_last();
        let rc = contents.drop_last();
        let n = states.len() - 1;
        lemma_changes_are_changed(rs, rc);
        let before = changes(rs, rc);
        let ch = changes(states, contents);
        if is_changed(states, contents, n) {
            assert(ch == before.push((states[n].0, current(contents, n))));
        } else {
            assert(ch == before);
        }
        assert forall|k: int|
            #![trigger changes(states, contents)[k]]
            0 <= k < changes(states, contents).len() implies exists|i: int|
                0 <= i < states.len() && is_changed(states, contents, i) && changes(states, contents)[k].0
                    == states[i].0 && changes(states, contents)[k].1 == current(contents, i) by {
            if k < before.len() {
                assert(ch[k] == before[k]);
                let i = choose|i: int|
                    0 <= i < rs.len() && is_changed(rs, rc, i) && before[k].0 == rs[i].0 && before[k].1 == current(rc, i);
                assert(rs[i] == states[i] && rc[i] == contents[i]);
                assert(0 <= i < states.len() && is_changed(states, contents, i) && ch[k].0 == states[i].0 && ch[k].1 == current(contents, i));
            } else {
                assert(is_changed(states, contents, n));
                assert(ch[k].0 == states[n].0 && ch[k].1 == current(contents, n));
            }
        }
    } else {
        assert(changes(states, contents).len() == 0);
    }
}

/// Every changed file is reported, with its new digest.
proof fn lemma_changed_are_reported(states: Seq<(String, u64)>, contents: Seq<Vec<u8>>)
    requires
        contents.len() == states.len(),
    ensures
        all_changed_reported(states, contents, changes(states, contents)),
    decreases states.len(),
{
    reveal(all_changed_reported);
    if states.len() > 0 {
        let rs = states.drop_last();
        let rc = contents.drop_last();
        let n = states.len() - 1;
        lemma_changed_are_reported(rs, rc);
        let before = changes(rs, rc);
        let ch = changes(states, contents);
        if is_changed(states, contents, n) {
            assert(ch == before.push((states[n].0, current(contents, n))));
        } else {
            assert(ch == before);
        }
        assert forall|i: int|
            #![trigger states[i]]
            0 <= i < states.len() && is_changed(states, contents, i) implies exists|k: int|
                0 <= k < changes(states, contents).len() && changes(states, contents)[k].0 == states[i].0
                    && changes(states, contents)[k].1 == current(contents, i) by {
            if i < n {
                assert(rs[i] == states[i] && rc[i] == contents[i]);
                assert(is_changed(rs, rc, i));
                let k = choose|k: int| 0 <= k < before.len() && before[k].0 == rs[i].0 && before[k].1 == current(rc, i);
                assert(ch[k] == before[k]);
                assert(0 <= k < ch.len() && ch[k].0 == states[i].0 && ch[k].1 == current(contents, i));
            } else {
                let k = before.len() as int;
                assert(ch[k].0 == states[n].0 && ch[k].1 == current(contents, n));
            }
        }
    }
}

/// Distinct files give distinct changes.
proof fn lemma_changes_distinct(states: Seq<(String, u64)>, contents: Seq<Vec<u8>>)
    requires
        contents.len() == states.len(),
        distinct_names(states),
    ensures
        distinct_names(changes(states, contents)),
    decreases states.len(),
{
    reveal(only_changed_reported);
    if states.len() > 0 {
        let rs = states.drop_last();
        let rc = contents.drop_last();
        let n = states.len() - 1;
        assert(distinct_names(rs)) by {
            assert forall|i: int, j: int| 0 <= i < j < rs.len() implies rs[i].0@ != rs[j].0@ by {
                assert(rs[i] == states[i] && rs[j] == states[j]);
            }
        }
        lemma_changes_distinct(rs, rc);
        lemma_changes_are_changed(rs, rc);
        let before = changes(rs, rc);
        let ch = changes(states, contents);
        if is_changed(states, contents, n) {
            assert(ch == before.push((states[n].0, current(contents, n))));
        } else {
            assert(ch == before);
        }
        assert forall|a: int, b: int| 0 <= a < b < ch.len() implies ch[a].0@ != ch[b].0@ by {
            assert(ch[a] == before[a]);
            if b < before.len() {
                assert(ch[b] == before[b]);
            } else {
                let i = choose|i: int|
                    0 <= i < rs.len() && is_changed(rs, rc, i) && before[a].0 == rs[i].0 && before[a].1 == current(rc, i);
                assert(rs[i] == states[i]);
                assert(ch[b].0 == states[n].0);
            }
        }
    }
}

/// Distinct names stay distinct under filtering.
proof fn lemma_filter_distinct(s: Seq<(String, u64)>, p: spec_fn((String, u64)) -> bool)
    requires
        distinct_names(s),
    ensures
        distinct_names(s.filter(p)),
    decreases s.len(),
{
    if s.len() > 0 {
        let rest = s.drop_last();
        let x = s.last();
        assert(distinct_names(rest)) by {
            assert forall|i: int, j: int| 0 <= i < j < rest.len() implies rest[i].0@ != rest[j].0@ by {
                assert(rest[i] == s[i] && rest[j] == s[j]);
            }
        }
        lemma_filter_distinct(rest, p);
        assert(rest.push(x) =~= s);
        rest.lemma_filter_push(x, p);
        if p(x) {
            let f = rest.filter(p);
            assert forall|a: int, b: int| 0 <= a < b < f.len() + 1 implies f.push(x)[a].0@ != f.push(x)[b].0@ by {
                if b == f.len() {
                    assert(f.contains(f[a]));
                    rest.lemma_filter_contains_rev(p, f[a]);
                    let i = choose|i: int| 0 <= i < rest.len() && rest[i] == f[a];
                    assert(rest[i] == s[i] && s[s.len() - 1] == x);
                }
            }
        }
    }
}

/// The whole change-detection step. Given the recorded digests of distinct
/// owned files and their current contents: the files reported as changed
/// are exactly those whose contents no longer match, each with its new
/// digest (so a file's name is among the changes exactly when it changed);
/// recording all of them leaves the unchanged entries in order followed by
/// the changes; and afterwards every owned file has exactly one
/// entry, with the digest of its current contents, and no other file has
/// one.
pub proof fn law_change_detection(states: Seq<(String, u64)>, contents: Seq<Vec<u8>>)
    requires
        distinct_names(states),
        contents.len() == states.len(),
    ensures
        ({
            let ch = changes(states, contents);
            let after = states.filter(outside(names_in(ch))) + ch;
            &&& only_changed_reported(states, contents, ch)
            &&& all_changed_reported(states, contents, ch)
            &&& forall|i: int|
                #![trigger states[i]]
                0 <= i < states.len() ==> names_in(ch).contains(states[i].0@) == is_changed(
                    states,
                    contents,
                    i,
                )
            &&& with_file_states(states, ch) == after
            &&& distinct_names(after)
            &&& every_file_current(states, contents, after)
            &&& only_files_current(states, contents, after)
        }),
{
    let ch = changes(states, contents);
    lemma_changes_are_changed(states, contents);
    lemma_changed_are_reported(states, contents);
    lemma_changes_distinct(states, contents);
    lemma_with_file_states(states, ch);
    lemma_kept_then_changes_distinct(states, contents);
    lemma_kept_then_changes_cover(states, contents);
    lemma_kept_then_changes_current(states, contents);
    lemma_reported_iff_changed(states, contents);
}

/// A file's name is among the reported changes exactly when the file changed.
proof fn lemma_reported_iff_changed(states: Seq<(String, u64)>, contents: Seq<Vec<u8>>)
    requires
        distinct_names(states),
        contents.len() == states.len(),
    ensures
        forall|i: int|
            #![trigger states[i]]
            0 <= i < states.len() ==> names_in(changes(states, contents)).contains(states[i].0@)
                == is_changed(states, contents, i),
{
    reveal(only_changed_reported);
    reveal(all_changed_reported);
    let ch = changes(states, contents);
    let n = names_in(ch);
    lemma_changes_are_changed(states, contents);
    lemma_changed_are_reported(states, contents);
    assert forall|i: int| #![trigger states[i]] 0 <= i < states.len() implies n.contains(states[i].0@)
        == is_changed(states, contents, i) by {
        if n.contains(states[i].0@) {
            let k = choose|k: int| 0 <= k < ch.len() && #[trigger] ch[k].0@ == states[i].0@;
            let j = choose|j: int|
                0 <= j < states.len() && is_changed(states, contents, j) && ch[k].0 == states[j].0
                    && ch[k].1 == current(contents, j);
            if j < i {
                assert(states[j].0@ != states[i].0@);
            } else if i < j {
                assert(states[i].0@ != states[j].0@);
            }
        }
        if is_changed(states, contents, i) {
            let k = choose|k: int|
                0 <= k < ch.len() && ch[k].0 == states[i].0 && ch[k].1 == current(contents, i);
            assert(ch[k].0@ == states[i].0@);
        }
    }
}

/// The unchanged entries followed by the changes name no file twice.
proof fn lemma_kept_then_changes_distinct(states: Seq<(String, u64)>, contents: Seq<Vec<u8>>)
    requires
        distinct_names(states),
        contents.len() == states.len(),
    ensures
        distinct_names(states.filter(outside(names_in(changes(states, contents)))) + changes(states, contents)),
{
    let ch = changes(states, contents);
    lemma_changes_distinct(states, contents);
    let n = names_in(ch);
    let kept = states.filter(outside(n));
    let after = kept + ch;
    lemma_filter_distinct(states, outside(n));
    assert forall|a: int, b: int| 0 <= a < b < after.len() implies after[a].0@ != after[b].0@ by {
        if b < kept.len() {
            assert(after[a] == kept[a] && after[b] == kept[b]);
        } else if a >= kept.len() {
            assert(after[a] == ch[a - kept.len()] && after[b] == ch[b - kept.len()]);
        } else {
            assert(after[a] == kept[a] && after[b] == ch[b - kept.len()]);
            states.lemma_filter_pred(outside(n), a);
            assert(n.contains(ch[b - kept.len()].0@));
        }
    }
}

/// In the unchanged entries followed by the changes, every file has an
/// entry with the digest of its current contents.
proof fn lemma_kept_then_changes_cover(states: Seq<(String, u64)>, contents: Seq<Vec<u8>>)
    requires
        distinct_names(states),
        contents.len() == states.len(),
    ensures
        every_file_current(
            states,
            contents,
            states.filter(outside(names_in(changes(states, contents)))) + changes(states, contents),
        ),
{
    let ch = changes(states, contents);
    lemma_changed_are_reported(states, contents);
    lemma_reported_iff_changed(states, contents);
    reveal(all_changed_reported);
    reveal(every_file_current);
    let n = names_in(ch);
    let kept = states.filter(outside(n));
    let after = kept + ch;
    assert forall|i: int| #![trigger states[i]] 0 <= i < states.len() implies exists|k: int|
        0 <= k < after.len() && after[k].0 == states[i].0 && after[k].1 == current(contents, i) by {
        if is_changed(states, contents, i) {
            let k = choose|k: int|
                0 <= k < ch.len() && ch[k].0 == states[i].0 && ch[k].1 == current(contents, i);
            assert(after[kept.len() + k] == ch[k]);
        } else {
            states.lemma_filter_contains(outside(n), i);
            let a = choose|a: int| 0 <= a < kept.len() && kept[a] == states[i];
            assert(after[a] == kept[a]);
        }
    }
}

/// In the unchanged entries followed by the changes, every entry is of a
/// file with the digest of its current contents.
proof fn lemma_kept_then_changes_current(states: Seq<(String, u64)>, contents: Seq<Vec<u8>>)
    requires
        distinct_names(states),
        contents.len() == states.len(),
    ensures
        only_files_current(
            states,
            contents,
            states.filter(outside(names_in(changes(states, contents)))) + changes(states, contents),
        ),
{
    let ch = changes(states, contents);
    lemma_changes_are_changed(states, contents);
    lemma_reported_iff_changed(states, contents);
    reveal(only_changed_reported);
    reveal(only_files_current);
    let n = names_in(ch);
    let kept = states.filter(outside(n));
    let after = kept + ch;
    assert forall|k: int| #![trigger after[k]] 0 <= k < after.len() implies exists|i: int|
        0 <= i < states.len() && after[k].0 == states[i].0 && after[k].1 == current(contents, i) by {
        if k < kept.len() {
            assert(after[k] == kept[k]);
            states.lemma_filter_pred(outside(n), k);
            assert(kept.contains(kept[k]));
            states.lemma_filter_contains_rev(outside(n), kept[k]);
            let i = choose|i: int| 0 <= i < states.len() && states[i] == kept[k];
            assert(!names_in(ch).contains(states[i].0@));
            assert(!is_changed(states, contents, i));
            assert(0 <= i < states.len() && after[k].0 == states[i].0 && after[k].1 == current(contents, i));
        } else {
            let j = k - kept.len();
            assert(after[k] == ch[j]);
            let i = choose|i: int|
                0 <= i < states.len() && is_changed(states, contents, i) && ch[j].0 == states[i].0
                    && ch[j].1 == current(contents, i);
            assert(0 <= i < states.len() && after[k].0 == states[i].0 && after[k].1 == current(contents, i));
        }
    }
}

} // verus!
