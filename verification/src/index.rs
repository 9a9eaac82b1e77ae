//! The index that a super-peer keeps of the files of its leaf peers.

use vstd::prelude::*;
use crate::messages::{RegisterRequest, SearchReply};
use crate::names::copy_names;
use crate::order::{insert_name, name_set, strictly_ascending};
use crate::seq_facts::{lemma_filter_keeps_all, lemma_filter_keeps_none};

verus! {

broadcast use vstd::seq_lib::group_filter_ensures;

/// A leaf peer as the index records it.
#[derive(Debug)]
pub struct Client {
    pub id: u64,
    pub state: u64,
    pub files: Vec<String>,
    pub ip: String,
    pub ip_qe: String,
}

/// One file of one registered peer.
#[derive(Debug)]
pub struct FileEntry {
    /// The address of the holder's file server.
    pub ip: String,
    /// The holder's identifier.
    pub id: u64,
    pub file: String,
    /// The address of the holder's query engine.
    pub ip_qe: String,
    /// The version digest of the holder's copy.
    pub state: u64,
}

impl Clone for FileEntry {
    fn clone(&self) -> (r: Self)
        ensures
            r == *self,
    {
        FileEntry {
            ip: self.ip.clone(),
            id: self.id,
            file: self.file.clone(),
            ip_qe: self.ip_qe.clone(),
            state: self.state,
        }
    }
}

impl Clone for Client {
    fn clone(&self) -> (r: Self)
        ensures
            r.id == self.id,
            r.state == self.state,
            r.files@ == self.files@,
            r.ip == self.ip,
            r.ip_qe == self.ip_qe,
    {
        Client {
            id: self.id,
            state: self.state,
            files: copy_names(&self.files),
            ip: self.ip.clone(),
            ip_qe: self.ip_qe.clone(),
        }
    }
}

/// A super-peer's index: its registered peers and all their files.
#[derive(Debug)]
pub struct MyGreeter {
    pub client_list: Vec<Client>,
    pub file_list: Vec<FileEntry>,
    /// The port of the super-peer's own query engine.
    pub qe_port: String,
}

/// Why a search found nothing.
#[derive(Debug, PartialEq, Eq, Structural)]
pub enum SearchError {
    /// No registered peer holds the file.
    FileNotFound,
}

/// The file entries that a registration adds, one per registered file.
pub open spec fn registration_entries(req: RegisterRequest) -> Seq<FileEntry> {
    Seq::new(
        req.files@.len(),
        |i: int|
            FileEntry {
                ip: req.ip,
                id: req.hash,
                file: req.files@[i],
                ip_qe: req.ip_qe,
                state: req.file_states@[i],
            },
    )
}

/// The entry is one of the file named `filename`.
pub open spec fn names_file(filename: Seq<char>) -> spec_fn(FileEntry) -> bool {
    |e: FileEntry| e.file@ == filename
}

/// The record of the peer that `req` registers.
pub open spec fn registered_client(req: RegisterRequest) -> Client {
    Client { id: req.hash, state: req.state, files: req.files, ip: req.ip, ip_qe: req.ip_qe }
}

/// `after` is `before` with the peer of `req` and its files added at the end.
pub open spec fn register_post(before: MyGreeter, req: RegisterRequest, after: MyGreeter) -> bool {
    &&& after.file_list@ == before.file_list@ + registration_entries(req)
    &&& after.client_list@ == before.client_list@.push(registered_client(req))
    &&& after.qe_port == before.qe_port
}

/// `after` is `before` without the peer `id` and without its files.
pub open spec fn deregister_post(before: MyGreeter, id: u64, after: MyGreeter) -> bool {
    &&& after.file_list@ == before.file_list@.filter(|e: FileEntry| e.id != id)
    &&& after.client_list@ == before.client_list@.filter(|c: Client| c.id != id)
    &&& after.qe_port == before.qe_port
}

impl MyGreeter {
    /// The names of all indexed files.
    pub open spec fn file_names(self) -> Set<Seq<char>> {
        Set::new(
            |n: Seq<char>|
                exists|j: int| 0 <= j < self.file_list@.len() && #[trigger] self.file_list@[j].file@ == n,
        )
    }

    /// The entries of the file named `filename`, in index order.
    pub open spec fn holders(self, filename: Seq<char>) -> Seq<FileEntry> {
        self.file_list@.filter(names_file(filename))
    }

    /// An empty index for a super-peer whose query engine listens on `qe_port`.
    pub fn new(qe_port: String) -> (g: Self)
        ensures
            g.client_list@.len() == 0,
            g.file_list@.len() == 0,
            g.qe_port == qe_port,
    {
        MyGreeter { client_list: Vec::new(), file_list: Vec::new(), qe_port }
    }

    /// The names of all indexed files, sorted, each once.
    pub fn list_files(&self) -> (files: Vec<String>)
        ensures
            strictly_ascending(files@),
            name_set(files@) == self.file_names(),
    {
        let mut files: Vec<String> = Vec::new();
        let mut i: usize = 0;
        while i < self.file_list.len()
            invariant
                i <= self.file_list@.len(),
                strictly_ascending(files@),
                name_set(files@) == Set::new(
                    |n: Seq<char>|
                        exists|j: int| 0 <= j < i && #[trigger] self.file_list@[j].file@ == n,
                ),
            decreases self.file_list@.len() - i,
        {
            let ghost before = name_set(files@);
            insert_name(&mut files, self.file_list[i].file.clone());
            proof {
                let later = Set::new(
                    |n: Seq<char>|
                        exists|j: int| 0 <= j < i + 1 && #[trigger] self.file_list@[j].file@ == n,
                );
                assert forall|n: Seq<char>| later.contains(n) <==> before.insert(self.file_list@[i as int].file@).contains(n) by {
                    if later.contains(n) {
                        let j = choose|j: int| 0 <= j < i + 1 && #[trigger] self.file_list@[j].file@ == n;
                        if j < i {
                            assert(before.contains(n));
                        }
                    }
                    if before.contains(n) {
                        let j = choose|j: int| 0 <= j < i && #[trigger] self.file_list@[j].file@ == n;
                        assert(self.file_list@[j].file@ == n);
                    }
                }
                assert(name_set(files@) =~= later);
            }
            i = i + 1;
        }
        assert(name_set(files@) =~= self.file_names());
        files
    }

    /// The holders of `filename`: their file-server addresses, identifiers,
    /// query-engine addresses and versions, in index order. Fails when no
    /// registered peer holds the file.
    pub fn search(&self, filename: &String) -> (r: Result<SearchReply, SearchError>)
        ensures
            (self.holders(filename@).len() == 0) == (r is Err),
            r matches Ok(reply) ==> {
                let h = self.holders(filename@);
                &&& reply.ips@ == h.map_values(|e: FileEntry| e.ip)
                &&& reply.ids@ == h.map_values(|e: FileEntry| e.id)
                &&& reply.file == h[0].file
                &&& reply.ips_qe@ == h.map_values(|e: FileEntry| e.ip_qe)
                &&& reply.states@ == h.map_values(|e: FileEntry| e.state)
            },
            (r is Err) == forall|j: int|
                #![trigger self.file_list@[j]]
                0 <= j < self.file_list@.len() ==> self.file_list@[j].file@ != filename@,
            r matches Ok(reply) ==> reply.file@ == filename@,
    {
        proof {
            law_holders_have_exact_name(*self, filename@);
        }
        let ghost pred = names_file(filename@);
        let mut ips: Vec<String> = Vec::new();
        let mut ids: Vec<u64> = Vec::new();
        let mut files: Vec<String> = Vec::new();
        let mut ips_qe: Vec<String> = Vec::new();
        let mut states: Vec<u64> = Vec::new();
        let mut i: usize = 0;
        while i < self.file_list.len()
            invariant
                i <= self.file_list@.len(),
                pred == names_file(filename@),
                ips@ == self.file_list@.take(i as int).filter(pred).map_values(|e: FileEntry| e.ip),
                ids@ == self.file_list@.take(i as int).filter(pred).map_values(|e: FileEntry| e.id),
                files@ == self.file_list@.take(i as int).filter(pred).map_values(|e: FileEntry| e.file),
                ips_qe@ == self.file_list@.take(i as int).filter(pred).map_values(|e: FileEntry| e.ip_qe),
                states@ == self.file_list@.take(i as int).filter(pred).map_values(|e: FileEntry| e.state),
            decreases self.file_list@.len() - i,
        {
            let e = &self.file_list[i];
            proof {
                assert(self.file_list@.take(i + 1) =~= self.file_list@.take(i as int).push(*e));
                self.file_list@.take(i as int).lemma_filter_push(*e, pred);
            }
            if e.file == *filename {
                ips.push(e.ip.clone());
                ids.push(e.id);
                files.push(e.file.clone());
                ips_qe.push(e.ip_qe.clone());
                states.push(e.state);
            }
            proof {
                let f = self.file_list@.take(i + 1).filter(pred);
                assert(ips@ =~= f.map_values(|e: FileEntry| e.ip));
                assert(ids@ =~= f.map_values(|e: FileEntry| e.id));
                assert(files@ =~= f.map_values(|e: FileEntry| e.file));
                assert(ips_qe@ =~= f.map_values(|e: FileEntry| e.ip_qe));
                assert(states@ =~= f.map_values(|e: FileEntry| e.state));
            }
            i = i + 1;
        }
        assert(self.file_list@.take(self.file_list@.len() as int) =~= self.file_list@);
        if files.len() == 0 {
            Err(SearchError::FileNotFound)
        } else {
            let file = files[0].clone();
            Ok(SearchReply { ips, ids, file, ips_qe, states })
        }
    }

    /// Records the peer of `req` and one entry per file it registers.
    pub fn register(&mut self, req: RegisterRequest)
        requires
            req.files@.len() <= req.file_states@.len(),
        ensures
            register_post(*old(self), req, *final(self)),
    {
        let mut i: usize = 0;
        while i < req.files.len()
            invariant
                i <= req.files@.len(),
                req.files@.len() <= req.file_states@.len(),
                self.file_list@ == old(self).file_list@ + registration_entries(req).take(i as int),
                self.client_list@ == old(self).client_list@,
                self.qe_port == old(self).qe_port,
            decreases req.files@.len() - i,
        {
            self.file_list.push(
                FileEntry {
                    ip: req.ip.clone(),
                    id: req.hash,
                    file: req.files[i].clone(),
                    ip_qe: req.ip_qe.clone(),
                    state: req.file_states[i],
                },
            );
            assert(registration_entries(req).take(i + 1) =~= registration_entries(req).take(
                i as int,
            ).push(registration_entries(req)[i as int]));
            i = i + 1;
        }
        assert(registration_entries(req).take(req.files@.len() as int) =~= registration_entries(
            req,
        ));
        let ghost r = req;
        let client = Client {
            id: req.hash,
            ip: req.ip,
            state: req.state,
            files: req.files,
            ip_qe: req.ip_qe,
        };
        self.client_list.push(client);
        assert(client == registered_client(r));
    }

    /// Forgets the peer `id` and all its files.
    pub fn deregister(&mut self, id: u64)
        ensures
            deregister_post(*old(self), id, *final(self)),
    {
        let ghost fpred = |e: FileEntry| e.id != id;
        let ghost cpred = |c: Client| c.id != id;
        let mut kept_files: Vec<FileEntry> = Vec::new();
        let mut i: usize = 0;
        while i < self.file_list.len()
            invariant
                i <= self.file_list@.len(),
                fpred == (|e: FileEntry| e.id != id),
                kept_files@ == self.file_list@.take(i as int).filter(fpred),
            decreases self.file_list@.len() - i,
        {
            let e = &self.file_list[i];
            proof {
                assert(self.file_list@.take(i + 1) =~= self.file_list@.take(i as int).push(*e));
                self.file_list@.take(i as int).lemma_filter_push(*e, fpred);
            }
            if e.id != id {
                kept_files.push(e.clone());
            }
            i = i + 1;
        }
        assert(self.file_list@.take(self.file_list@.len() as int) =~= self.file_list@);
        let mut taken: Vec<Client> = Vec::new();
        std::mem::swap(&mut taken, &mut self.client_list);
        let ghost all = taken@;
        assert(all == old(self).client_list@);
        let mut kept_clients: Vec<Client> = Vec::new();
        for c in it: taken
            invariant
                cpred == (|c: Client| c.id != id),
                it.seq() == all,
                kept_clients@ == all.take(it.index() as int).filter(cpred),
        {
            proof {
                assert(all.take(it.index() + 1) =~= all.take(it.index() as int).push(c));
                all.take(it.index() as int).lemma_filter_push(c, cpred);
            }
            if c.id != id {
                kept_clients.push(c);
            }
        }
        assert(all.take(all.len() as int) =~= all);
        self.file_list = kept_files;
        self.client_list = kept_clients;
    }
}



/// A search matches the file name exactly: every holder it reports has a
/// file of exactly that name, and it reports none just when no entry of the
/// index has a file of exactly that name (a name that only begins another
/// file's name finds nothing).
pub proof fn law_holders_have_exact_name(g: MyGreeter, filename: Seq<char>)
    ensures
        forall|k: int|
            #![trigger g.holders(filename)[k]]
            0 <= k < g.holders(filename).len() ==> g.holders(filename)[k].file@ == filename,
        (g.holders(filename).len() == 0) == forall|j: int|
            #![trigger g.file_list@[j]]
            0 <= j < g.file_list@.len() ==> g.file_list@[j].file@ != filename,
{
    let pred = names_file(filename);
    let h = g.holders(filename);
    assert forall|k: int| #![trigger h[k]] 0 <= k < h.len() implies h[k].file@ == filename by {
        assert(pred(h[k]));
    }
    if h.len() == 0 {
        assert forall|j: int|
            #![trigger g.file_list@[j]]
            0 <= j < g.file_list@.len() implies g.file_list@[j].file@ != filename by {
            if g.file_list@[j].file@ == filename {
                g.file_list@.lemma_filter_contains(pred, j);
            }
        }
    } else {
        assert(h.contains(h[0]));
        g.file_list@.lemma_filter_contains_rev(pred, h[0]);
        let j = choose|j: int| 0 <= j < g.file_list@.len() && g.file_list@[j] == h[0];
        assert(g.file_list@[j].file@ == filename);
    }
}

/// Registering a peer whose identifier the index does not know, then
/// deregistering it, leaves the index as it was.
pub proof fn law_register_then_deregister_restores(
    g0: MyGreeter,
    req: RegisterRequest,
    g1: MyGreeter,
    g2: MyGreeter,
)
    requires
        forall|j: int| 0 <= j < g0.file_list@.len() ==> (#[trigger] g0.file_list@[j]).id != req.hash,
        forall|k: int|
            0 <= k < g0.client_list@.len() ==> (#[trigger] g0.client_list@[k]).id != req.hash,
        register_post(g0, req, g1),
        deregister_post(g1, req.hash, g2),
    ensures
        g2.file_list@ == g0.file_list@,
        g2.client_list@ == g0.client_list@,
        g2.qe_port == g0.qe_port,
{
    let id = req.hash;
    let fp = |e: FileEntry| e.id != id;
    let cp = |c: Client| c.id != id;
    Seq::filter_distributes_over_add(g0.file_list@, registration_entries(req), fp);
    lemma_filter_keeps_all(g0.file_list@, fp);
    lemma_filter_keeps_none(registration_entries(req), fp);
    assert(g0.file_list@ + Seq::<FileEntry>::empty() =~= g0.file_list@);
    g0.client_list@.lemma_filter_push(registered_client(req), cp);
    lemma_filter_keeps_all(g0.client_list@, cp);
}

/// Once a peer is deregistered, the index holds no file of it and no record
/// of it, so no search answers with it.
pub proof fn law_deregistered_peer_is_gone(g1: MyGreeter, id: u64, g2: MyGreeter, filename: Seq<char>)
    requires
        deregister_post(g1, id, g2),
    ensures
        forall|j: int| 0 <= j < g2.file_list@.len() ==> (#[trigger] g2.file_list@[j]).id != id,
        forall|k: int| 0 <= k < g2.client_list@.len() ==> (#[trigger] g2.client_list@[k]).id != id,
        forall|j: int|
            0 <= j < g2.holders(filename).len() ==> (#[trigger] g2.holders(filename)[j]).id != id,
{
    let fp = |e: FileEntry| e.id != id;
    let cp = |c: Client| c.id != id;
    assert forall|j: int| 0 <= j < g2.file_list@.len() implies (#[trigger] g2.file_list@[j]).id != id by {
        g1.file_list@.lemma_filter_pred(fp, j);
    }
    assert forall|k: int| 0 <= k < g2.client_list@.len() implies (#[trigger] g2.client_list@[k]).id != id by {
        g1.client_list@.lemma_filter_pred(cp, k);
    }
    let hp = names_file(filename);
    assert forall|j: int|
        0 <= j < g2.holders(filename).len() implies (#[trigger] g2.holders(filename)[j]).id != id by {
        let h = g2.holders(filename);
        assert(h[j] == h[j]);
        assert(h.contains(h[j]));
        g2.file_list@.lemma_filter_contains_rev(hp, h[j]);
    }
}

/// After a peer registers, a search for any of its files finds it: among the
/// holders of that file is the entry with the peer's addresses, identifier and
/// the file's version.
pub proof fn law_registered_file_is_found(g0: MyGreeter, req: RegisterRequest, g1: MyGreeter, i: int)
    requires
        req.files@.len() <= req.file_states@.len(),
        0 <= i < req.files@.len(),
        register_post(g0, req, g1),
    ensures
        g1.holders(req.files@[i]@).len() > 0,
        g1.holders(req.files@[i]@).contains(
            FileEntry {
                ip: req.ip,
                id: req.hash,
                file: req.files@[i],
                ip_qe: req.ip_qe,
                state: req.file_states@[i],
            },
        ),
{
    let e = registration_entries(req)[i];
    let hp = names_file(req.files@[i]@);
    let k = g0.file_list@.len() + i;
    assert(g1.file_list@[k] == e);
    g1.file_list@.lemma_filter_contains(hp, k);
}


/// After a peer registers, each of its files is among the listed names.
pub proof fn law_registered_file_is_listed(g0: MyGreeter, req: RegisterRequest, g1: MyGreeter, i: int)
    requires
        req.files@.len() <= req.file_states@.len(),
        0 <= i < req.files@.len(),
        register_post(g0, req, g1),
    ensures
        g1.file_names().contains(req.files@[i]@),
{
    let k = g0.file_list@.len() + i;
    assert(g1.file_list@[k] == registration_entries(req)[i]);
    assert(g1.file_list@[k].file@ == req.files@[i]@);
}

} // verus!
