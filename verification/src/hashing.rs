//! Hash values of files, file listings and peer identities, computed with
//! std's `DefaultHasher` (the hasher whose digest the network uses for peer
//! identifiers and file versions).

use std::collections::hash_map::DefaultHasher;
use std::hash::Hasher;
use vstd::prelude::*;
use vstd::std_specs::hash::DefaultHasherAdditionalSpecFns;
use vstd::utf8::encode_utf8;

verus! {

/// The 8 bytes of `n`, least significant first: how a length prefix reaches
/// the hasher on a 64-bit little-endian target.
pub open spec fn le_bytes(n: u64) -> Seq<u8> {
    seq![
        n as u8,
        (n >> 8u64) as u8,
        (n >> 16u64) as u8,
        (n >> 24u64) as u8,
        (n >> 32u64) as u8,
        (n >> 40u64) as u8,
        (n >> 48u64) as u8,
        (n >> 56u64) as u8,
    ]
}

/// The writes that hashing a string makes: its UTF-8 bytes, then the byte
/// `0xff`, which keeps the encoding of a sequence of strings free of prefixes.
pub open spec fn text_writes(s: Seq<char>) -> Seq<Seq<u8>> {
    seq![encode_utf8(s), seq![0xffu8]]
}

/// The writes that hashing the strings of `s`, one after the other, makes.
pub open spec fn texts_writes(s: Seq<String>) -> Seq<Seq<u8>>
    decreases s.len(),
{
    if s.len() == 0 {
        Seq::empty()
    } else {
        texts_writes(s.drop_last()) + text_writes(s.last()@)
    }
}

/// The digest of a hasher that was fed `writes`, starting from a fresh one.
pub open spec fn digest(writes: Seq<Seq<u8>>) -> u64 {
    DefaultHasher::spec_finish(writes)
}

/// The version digest of a file with contents `bytes`.
pub open spec fn content_digest(bytes: Seq<u8>) -> u64 {
    digest(seq![le_bytes(bytes.len() as u64), bytes])
}

/// The digest of a file listing.
pub open spec fn listing_digest(names: Vec<String>) -> u64 {
    digest(names.hash_writes())
}

/// A value that can be fed to a `DefaultHasher`.
pub trait HashInput {
    /// The writes that feeding this value makes, in order.
    spec fn hash_writes(&self) -> Seq<Seq<u8>>;

    /// Feeds this value to `state`.
    fn feed(&self, state: &mut DefaultHasher)
        ensures
            final(state)@ == old(state)@ + self.hash_writes(),
    ;
}

fn le_bytes_exec(n: u64) -> (b: Vec<u8>)
    ensures
        b@ == le_bytes(n),
{
    let b = vec![
        n as u8,
        (n >> 8u64) as u8,
        (n >> 16u64) as u8,
        (n >> 24u64) as u8,
        (n >> 32u64) as u8,
        (n >> 40u64) as u8,
        (n >> 48u64) as u8,
        (n >> 56u64) as u8,
    ];
    assert(b@ =~= le_bytes(n));
    b
}

/// Feeds one string to `state`.
pub fn feed_text(s: &str, state: &mut DefaultHasher)
    ensures
        final(state)@ == old(state)@ + text_writes(s@),
{
    let bytes = s.as_bytes();
    assert(bytes@ == encode_utf8(s@));
    state.write(bytes);
    let end: Vec<u8> = vec![0xffu8];
    assert(end@ =~= seq![0xffu8]);
    state.write(end.as_slice());
    assert(state@ =~= old(state)@ + text_writes(s@));
}

/// A byte string, such as a file's contents: its length, then its bytes.
impl HashInput for Vec<u8> {
    open spec fn hash_writes(&self) -> Seq<Seq<u8>> {
        seq![le_bytes(self@.len() as u64), self@]
    }

    fn feed(&self, state: &mut DefaultHasher) {
        let len = le_bytes_exec(self.len() as u64);
        state.write(len.as_slice());
        state.write(self.as_slice());
        assert(state@ =~= old(state)@ + self.hash_writes());
    }
}

/// The unit value feeds the hasher nothing.
impl HashInput for () {
    open spec fn hash_writes(&self) -> Seq<Seq<u8>> {
        Seq::empty()
    }

    fn feed(&self, state: &mut DefaultHasher) {
        assert(state@ =~= old(state)@ + self.hash_writes());
    }
}

/// The digest of the unit value: that of a fresh hasher fed nothing.
pub open spec fn unit_digest() -> u64 {
    digest(Seq::empty())
}

/// A list of names, such as a peer's file listing: its length, then each name.
impl HashInput for Vec<String> {
    open spec fn hash_writes(&self) -> Seq<Seq<u8>> {
        seq![le_bytes(self@.len() as u64)] + texts_writes(self@)
    }

    fn feed(&self, state: &mut DefaultHasher) {
        let len = le_bytes_exec(self.len() as u64);
        state.write(len.as_slice());
        let ghost start = state@;
        let mut i: usize = 0;
        while i < self.len()
            invariant
                i <= self@.len(),
                state@ == start + texts_writes(self@.take(i as int)),
            decreases self@.len() - i,
        {
            feed_text(self[i].as_str(), state);
            proof {
                assert(self@.take(i + 1).drop_last() =~= self@.take(i as int));
                assert(self@.take(i + 1).last() == self@[i as int]);
            }
            i = i + 1;
        }
        assert(self@.take(self@.len() as int) =~= self@);
        assert(state@ =~= old(state)@ + self.hash_writes());
    }
}

/// The digest of `t`: a fresh `DefaultHasher` fed `t`, then finished.
pub fn calculate_hash<T: HashInput>(t: &T) -> (h: u64)
    ensures
        h == digest(t.hash_writes()),
{
    let mut s = DefaultHasher::new();
    t.feed(&mut s);
    assert(s@ =~= t.hash_writes());
    s.finish()
}

} // verus!
