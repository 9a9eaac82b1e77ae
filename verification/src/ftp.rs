//! The table of files that a peer serves to other peers: its own files and
//! the copies it downloaded, with the refresh interval and version of each.

use vstd::prelude::*;
use crate::hashing::{calculate_hash, content_digest};
use crate::messages::FileStatusReply;
use crate::seq_facts::lemma_filter_narrower;
use crate::text::{http_scheme, http_url};

verus! {

broadcast use vstd::seq_lib::group_filter_ensures;

/// One file that a peer serves.
#[derive(Debug)]
pub struct FileRecord {
    pub filename: String,
    /// Empty for a file the peer owns; for a downloaded copy, the address of
    /// the file server it came from.
    pub ip: String,
    /// Time to refresh: how many seconds a downloaded copy stays fresh.
    pub ttr: u64,
    /// When the copy goes stale, in seconds since the Unix epoch; 0 for never.
    pub expire_time: u64,
    /// The version digest of the file.
    pub state: u64,
}

impl Clone for FileRecord {
    fn clone(&self) -> (r: Self)
        ensures
            r == *self,
    {
        FileRecord {
            filename: self.filename.clone(),
            ip: self.ip.clone(),
            ttr: self.ttr,
            expire_time: self.expire_time,
            state: self.state,
        }
    }
}

/// A downloaded copy that was found stale, and where to fetch it again.
#[derive(Debug)]
pub struct ExpiredFile {
    pub filename: String,
    pub ip: String,
}

/// Where a served file's bytes are kept.
#[derive(Debug, PartialEq, Eq, Structural)]
pub enum FileSource {
    /// The peer's own files.
    Owned,
    /// The copies the peer downloaded.
    Downloaded,
}

/// What a file server answers to a download request, but for the bytes.
#[derive(Debug)]
pub struct ReceivePlan {
    /// Where to read the bytes from.
    pub source: FileSource,
    /// The file server that the copy comes from: this server for its own
    /// files, the origin for files it downloaded.
    pub ip: String,
    pub ttr: u64,
    pub expire_time: u64,
    pub state: u64,
}

/// A peer's file server.
#[derive(Debug)]
pub struct MyFTP {
    pub filelist: Vec<FileRecord>,
    pub filelist_expired: Vec<ExpiredFile>,
    /// This server's own URL.
    pub ip: String,
}

/// Some record in `s` is named `name`.
pub open spec fn has_record(s: Seq<FileRecord>, name: Seq<char>) -> bool {
    exists|i: int| 0 <= i < s.len() && #[trigger] s[i].filename@ == name
}

/// `s[i]` is the last record in `s` named `name`.
pub open spec fn is_last_record(s: Seq<FileRecord>, name: Seq<char>, i: int) -> bool {
    &&& 0 <= i < s.len()
    &&& s[i].filename@ == name
    &&& forall|j: int| i < j < s.len() ==> #[trigger] s[j].filename@ != name
}

/// The last record in `s` named `name`.
pub open spec fn last_record(s: Seq<FileRecord>, name: Seq<char>) -> FileRecord {
    s[choose|i: int| is_last_record(s, name, i)]
}

/// The record is not named `name`.
pub open spec fn not_named(name: Seq<char>) -> spec_fn(FileRecord) -> bool {
    |r: FileRecord| r.filename@ != name
}

/// The record is named `name`.
pub open spec fn named(name: Seq<char>) -> spec_fn(FileRecord) -> bool {
    |r: FileRecord| r.filename@ == name
}

/// `s` without the records named `name`.
pub open spec fn without(s: Seq<FileRecord>, name: Seq<char>) -> Seq<FileRecord> {
    s.filter(not_named(name))
}

/// The record is a copy that went stale before `now`.
pub open spec fn stale_at(now: u64) -> spec_fn(FileRecord) -> bool {
    |r: FileRecord| r.expire_time != 0 && r.expire_time < now
}

/// When a fetched copy goes stale: the time its server gave, or, where the
/// server gave none, `ttr` seconds after `now`.
pub open spec fn expiry(expire_time: u64, ttr: u64, now: u64) -> int {
    if expire_time == 0 {
        now + ttr
    } else {
        expire_time as int
    }
}

/// `s` after `name` takes the version `state`: its records replaced by its
/// last one with that version.
pub open spec fn with_state(s: Seq<FileRecord>, name: Seq<char>, state: u64) -> Seq<FileRecord> {
    without(s, name).push(FileRecord { state, ..last_record(s, name) })
}

/// The record that marks a file just found stale.
pub open spec fn expired_entry(r: FileRecord) -> ExpiredFile {
    ExpiredFile { filename: r.filename, ip: r.ip }
}

/// The last record named `name` is unique, so any witness is it.
pub proof fn lemma_last_record_unique(s: Seq<FileRecord>, name: Seq<char>, i: int)
    requires
        is_last_record(s, name, i),
    ensures
        last_record(s, name) == s[i],
{
    let k = choose|k: int| is_last_record(s, name, k);
    assert(is_last_record(s, name, k));
    if k < i {
        assert(s[i].filename@ == name);
    } else if k > i {
        assert(s[k].filename@ == name);
    }
}

/// The index of the last record named `name`.
fn find_last(list: &Vec<FileRecord>, name: &String) -> (i: usize)
    requires
        has_record(list@, name@),
    ensures
        is_last_record(list@, name@, i as int),
        last_record(list@, name@) == list@[i as int],
{
    let mut i: usize = list.len();
    while i > 0 && list[i - 1].filename != *name
        invariant
            i <= list@.len(),
            forall|j: int| i <= j < list@.len() ==> #[trigger] list@[j].filename@ != name@,
        decreases i,
    {
        i = i - 1;
    }
    if i == 0 {
        proof {
            let w = choose|w: int| 0 <= w < list@.len() && #[trigger] list@[w].filename@ == name@;
            assert(list@[w].filename@ != name@);
        }
    }
    proof {
        lemma_last_record_unique(list@, name@, i - 1);
    }
    i - 1
}

/// Removes every record named `name`.
fn remove_named(list: &mut Vec<FileRecord>, name: &String)
    ensures
        final(list)@ == without(old(list)@, name@),
{
    let ghost p = not_named(name@);
    let mut taken: Vec<FileRecord> = Vec::new();
    std::mem::swap(&mut taken, list);
    let ghost all = taken@;
    let mut kept: Vec<FileRecord> = Vec::new();
    for r in it: taken
        invariant
            p == not_named(name@),
            it.seq() == all,
            kept@ == all.take(it.index() as int).filter(p),
    {
        proof {
            assert(all.take(it.index() + 1) =~= all.take(it.index() as int).push(r));
            all.take(it.index() as int).lemma_filter_push(r, p);
        }
        if r.filename != *name {
            kept.push(r);
        }
    }
    assert(all.take(all.len() as int) =~= all);
    *list = kept;
}

/// When a fetched copy goes stale: the time its server gave, or, where the
/// server gave none, `ttr` seconds after `now`.
pub fn expiry_of(expire_time: u64, ttr: u64, now: u64) -> (t: u64)
    requires
        expire_time == 0 ==> now + ttr <= u64::MAX,
    ensures
        t == expiry(expire_time, ttr, now),
{
    if expire_time == 0 {
        now + ttr
    } else {
        expire_time
    }
}

impl MyFTP {
    /// The file server of a peer at `addr` that owns the files `files` with
    /// the contents `contents`: each owned file is served with refresh
    /// interval `ttr`, no expiry, and its content digest as version.
    pub fn serving(addr: &str, ttr: u64, files: Vec<String>, contents: &Vec<Vec<u8>>) -> (s: Self)
        requires
            files@.len() == contents@.len(),
        ensures
            s.ip@ == http_scheme() + addr@,
            s.filelist_expired@.len() == 0,
            s.filelist@.len() == files@.len(),
            forall|i: int|
                0 <= i < files@.len() ==> {
                    let r = #[trigger] s.filelist@[i];
                    &&& r.filename == files@[i]
                    &&& r.ip@.len() == 0
                    &&& r.ttr == ttr
                    &&& r.expire_time == 0
                    &&& r.state == content_digest(contents@[i]@)
                },
    {
        let mut filelist: Vec<FileRecord> = Vec::new();
        let ghost names = files@;
        for name in it: files
            invariant
                it.seq() == names,
                names.len() == contents@.len(),
                filelist@.len() == it.index(),
                forall|i: int|
                    0 <= i < it.index() ==> {
                        let r = #[trigger] filelist@[i];
                        &&& r.filename == names[i]
                        &&& r.ip@.len() == 0
                        &&& r.ttr == ttr
                        &&& r.expire_time == 0
                        &&& r.state == content_digest(contents@[i]@)
                    },
        {
            let k = filelist.len();
            let state = calculate_hash(&contents[k]);
            filelist.push(FileRecord { filename: name, ip: String::new(), ttr, expire_time: 0, state });
        }
        MyFTP { filelist, filelist_expired: Vec::new(), ip: http_url(addr) }
    }

    /// Whether the server has a record of `filename`.
    pub fn has_file(&self, filename: &String) -> (b: bool)
        ensures
            b == has_record(self.filelist@, filename@),
    {
        let mut i: usize = 0;
        while i < self.filelist.len()
            invariant
                i <= self.filelist@.len(),
                forall|j: int| 0 <= j < i ==> #[trigger] self.filelist@[j].filename@ != filename@,
            decreases self.filelist@.len() - i,
        {
            if self.filelist[i].filename == *filename {
                return true;
            }
            i = i + 1;
        }
        false
    }

    /// How to answer a download of `filename`, by its last record: the bytes
    /// come from the peer's own files when the record has no origin, else from
    /// its downloads; the answer names this server or the origin.
    pub fn receive(&self, filename: &String) -> (plan: ReceivePlan)
        requires
            has_record(self.filelist@, filename@),
        ensures
            ({
                let r = last_record(self.filelist@, filename@);
                &&& plan.source == (if r.ip@.len() == 0 {
                    FileSource::Owned
                } else {
                    FileSource::Downloaded
                })
                &&& plan.ip == (if r.ip@.len() == 0 {
                    self.ip
                } else {
                    r.ip
                })
                &&& plan.ttr == r.ttr
                &&& plan.expire_time == r.expire_time
                &&& plan.state == r.state
            }),
    {
        let i = find_last(&self.filelist, filename);
        let r = &self.filelist[i];
        if r.ip.as_str().is_empty() {
            ReceivePlan {
                source: FileSource::Owned,
                ip: self.ip.clone(),
                ttr: r.ttr,
                expire_time: r.expire_time,
                state: r.state,
            }
        } else {
            ReceivePlan {
                source: FileSource::Downloaded,
                ip: r.ip.clone(),
                ttr: r.ttr,
                expire_time: r.expire_time,
                state: r.state,
            }
        }
    }

    /// Records a downloaded copy.
    pub fn update(&mut self, record: FileRecord)
        ensures
            final(self).filelist@ == old(self).filelist@.push(record),
            final(self).filelist_expired@ == old(self).filelist_expired@,
            final(self).ip == old(self).ip,
    {
        self.filelist.push(record);
    }

    /// The copies that went stale before `now`, in table order.
    pub fn expired_files(&self, now: u64) -> (r: Vec<FileRecord>)
        ensures
            r@ == self.filelist@.filter(stale_at(now)),
    {
        let ghost p = stale_at(now);
        let mut out: Vec<FileRecord> = Vec::new();
        let mut i: usize = 0;
        while i < self.filelist.len()
            invariant
                i <= self.filelist@.len(),
                p == stale_at(now),
                out@ == self.filelist@.take(i as int).filter(p),
            decreases self.filelist@.len() - i,
        {
            let r = &self.filelist[i];
            proof {
                assert(self.filelist@.take(i + 1) =~= self.filelist@.take(i as int).push(*r));
                self.filelist@.take(i as int).lemma_filter_push(*r, p);
            }
            if r.expire_time != 0 && r.expire_time < now {
                out.push(r.clone());
            }
            i = i + 1;
        }
        assert(self.filelist@.take(self.filelist@.len() as int) =~= self.filelist@);
        out
    }

    /// Acts on the version that the origin of the stale copy `file` reports.
    /// If it is the copy's version, the copy is kept: its records are
    /// replaced by one fresh until `ttr` seconds after `now`. Otherwise the
    /// copy is invalid: its last record moves to the expired list, all its
    /// records go, and the result is `true`.
    pub fn check_status(&mut self, file: &FileRecord, ttr: u64, state: u64, now: u64) -> (invalidated: bool)
        requires
            state == file.state ==> now + ttr <= u64::MAX,
            state != file.state ==> has_record(old(self).filelist@, file.filename@),
        ensures
            invalidated == (state != file.state),
            !invalidated ==> final(self).filelist@ == without(old(self).filelist@, file.filename@).push(
                FileRecord {
                    filename: file.filename,
                    ip: file.ip,
                    ttr,
                    expire_time: (now + ttr) as u64,
                    state: file.state,
                },
            ),
            !invalidated ==> final(self).filelist_expired@ == old(self).filelist_expired@,
            invalidated ==> final(self).filelist@ == without(old(self).filelist@, file.filename@),
            invalidated ==> final(self).filelist_expired@ == old(self).filelist_expired@.push(
                expired_entry(last_record(old(self).filelist@, file.filename@)),
            ),
            final(self).ip == old(self).ip,
    {
        if state == file.state {
            remove_named(&mut self.filelist, &file.filename);
            self.filelist.push(
                FileRecord {
                    filename: file.filename.clone(),
                    ip: file.ip.clone(),
                    ttr,
                    expire_time: now + ttr,
                    state: file.state,
                },
            );
            false
        } else {
            self.delete(&file.filename);
            true
        }
    }

    /// The refresh interval and version of the last record of `filename`.
    pub fn file_status(&self, filename: &String) -> (reply: FileStatusReply)
        requires
            has_record(self.filelist@, filename@),
        ensures
            reply.ttr == last_record(self.filelist@, filename@).ttr,
            reply.state == last_record(self.filelist@, filename@).state,
    {
        let i = find_last(&self.filelist, filename);
        FileStatusReply { ttr: self.filelist[i].ttr, state: self.filelist[i].state }
    }

    /// Drops `filename` after an invalidation: its last record moves to the
    /// expired list and all its records go.
    pub fn delete(&mut self, filename: &String)
        requires
            has_record(old(self).filelist@, filename@),
        ensures
            final(self).filelist@ == without(old(self).filelist@, filename@),
            final(self).filelist_expired@ == old(self).filelist_expired@.push(
                expired_entry(last_record(old(self).filelist@, filename@)),
            ),
            final(self).ip == old(self).ip,
    {
        let i = find_last(&self.filelist, filename);
        let entry = ExpiredFile {
            filename: self.filelist[i].filename.clone(),
            ip: self.filelist[i].ip.clone(),
        };
        self.filelist_expired.push(entry);
        remove_named(&mut self.filelist, filename);
    }

    /// Gives `filename` the version `state`: its records are replaced by its
    /// last one with that version.
    pub fn state_change(&mut self, filename: &String, state: u64)
        requires
            has_record(old(self).filelist@, filename@),
        ensures
            final(self).filelist@ == with_state(old(self).filelist@, filename@, state),
            final(self).filelist_expired@ == old(self).filelist_expired@,
            final(self).ip == old(self).ip,
    {
        let i = find_last(&self.filelist, filename);
        let r = self.filelist[i].clone();
        remove_named(&mut self.filelist, filename);
        self.filelist.push(FileRecord { state, ..r });
    }

    /// Records a copy fetched again from `ip`, stale at the time its server
    /// gave or, where it gave none, `ttr` seconds after `now`.
    pub fn refreshed(&mut self, filename: String, ip: String, ttr: u64, expire_time: u64, state: u64, now: u64)
        requires
            expire_time == 0 ==> now + ttr <= u64::MAX,
        ensures
            final(self).filelist@ == old(self).filelist@.push(
                FileRecord {
                    filename,
                    ip,
                    ttr,
                    expire_time: expiry(expire_time, ttr, now) as u64,
                    state,
                },
            ),
            final(self).filelist_expired@ == old(self).filelist_expired@,
            final(self).ip == old(self).ip,
    {
        let expire_time = expiry_of(expire_time, ttr, now);
        self.filelist.push(FileRecord { filename, ip, ttr, expire_time, state });
    }

    /// Forgets the expired copies, once they were all fetched again.
    pub fn clear_expired(&mut self)
        ensures
            final(self).filelist_expired@.len() == 0,
            final(self).filelist@ == old(self).filelist@,
            final(self).ip == old(self).ip,
    {
        self.filelist_expired.clear();
    }
}


/// The last record of a name in `s.push(r)`, for the name of `r`, is `r`.
proof fn lemma_pushed_is_last(s: Seq<FileRecord>, r: FileRecord)
    ensures
        has_record(s.push(r), r.filename@),
        last_record(s.push(r), r.filename@) == r,
{
    let t = s.push(r);
    assert(t[s.len() as int] == r);
    lemma_last_record_unique(t, r.filename@, s.len() as int);
}

/// `without(s, name)` holds no record named `name`.
proof fn lemma_without_has_none(s: Seq<FileRecord>, name: Seq<char>)
    ensures
        !has_record(without(s, name), name),
{
    let w = without(s, name);
    if has_record(w, name) {
        let i = choose|i: int| 0 <= i < w.len() && #[trigger] w[i].filename@ == name;
        s.lemma_filter_pred(not_named(name), i);
    }
}

/// After a download is recorded, the server reports that copy for its name:
/// its refresh interval, expiry and version.
pub proof fn law_update_then_status(s: Seq<FileRecord>, r: FileRecord)
    ensures
        has_record(s.push(r), r.filename@),
        last_record(s.push(r), r.filename@) == r,
{
    lemma_pushed_is_last(s, r);
}

/// After a file's version changes, the server reports the new version with
/// the refresh interval the file had.
pub proof fn law_state_change_then_status(s: Seq<FileRecord>, name: Seq<char>, state: u64)
    requires
        has_record(s, name),
    ensures
        has_record(with_state(s, name, state), name),
        last_record(with_state(s, name, state), name).state == state,
        last_record(with_state(s, name, state), name).ttr == last_record(s, name).ttr,
        last_record(with_state(s, name, state), name).ip == last_record(s, name).ip,
{
    let w = choose|w: int| 0 <= w < s.len() && #[trigger] s[w].filename@ == name;
    lemma_last_exists(s, name, w);
    let r = FileRecord { state, ..last_record(s, name) };
    lemma_pushed_is_last(without(s, name), r);
}

/// Some index is that of the last record named `name` when one is.
proof fn lemma_last_exists(s: Seq<FileRecord>, name: Seq<char>, w: int)
    requires
        0 <= w < s.len(),
        s[w].filename@ == name,
    ensures
        exists|i: int| is_last_record(s, name, i),
    decreases s.len() - w,
{
    if exists|j: int| w < j < s.len() && #[trigger] s[j].filename@ == name {
        let j = choose|j: int| w < j < s.len() && #[trigger] s[j].filename@ == name;
        lemma_last_exists(s, name, j);
    } else {
        assert(is_last_record(s, name, w));
    }
}

/// Once a file is deleted, the server holds no record of it.
pub proof fn law_delete_forgets(s: Seq<FileRecord>, name: Seq<char>)
    ensures
        !has_record(without(s, name), name),
{
    lemma_without_has_none(s, name);
}

/// Changing one file's version leaves the records of every other file as
/// they were, in order.
pub proof fn law_state_change_keeps_other_files(
    s: Seq<FileRecord>,
    name: Seq<char>,
    state: u64,
    other: Seq<char>,
)
    requires
        other != name,
        has_record(s, name),
    ensures
        with_state(s, name, state).filter(named(other)) == s.filter(named(other)),
{
    let w = choose|w: int| 0 <= w < s.len() && #[trigger] s[w].filename@ == name;
    lemma_last_exists(s, name, w);
    let r = FileRecord { state, ..last_record(s, name) };
    assert(r.filename@ == name);
    without(s, name).lemma_filter_push(r, named(other));
    assert forall|x: FileRecord| #[trigger] named(other)(x) implies not_named(name)(x) by {}
    lemma_filter_narrower(s, not_named(name), named(other));
}

} // verus!
