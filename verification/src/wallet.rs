//! The encrypted wallet store.
//!
//! A wallet file is a header — a magic constant whose low three bytes
//! carry the format version, then the checkpoint height — followed by an
//! ordered run of fixed-size encrypted entries.  Entries are appended,
//! never deleted, and each `(descriptor index, derivation index)` pair
//! stays unique.  Loading verifies the magic and decrypts every entry;
//! any failure is fatal, so a partially-decryptable file is treated as
//! corrupt rather than partially loaded.

use vstd::prelude::*;
use crate::constants::{MAGIC, DECRYPTED_ENTRY_SIZE, ENCRYPTED_ENTRY_SIZE, MAX_NOTE_BYTES,
    MAX_USER_ID_BYTES, TIMESTAMP_BYTES};
use crate::crypto::{encrypt_spec, decrypt_spec, encrypt_entry, decrypt_entry};
use crate::descriptor::{spk_of, derivable, derive_script_pubkey};
use crate::error::Error;
use crate::util::{le32, le32_val, le64, le64_val, push_le32, push_le64, read_le32, read_le64,
    copy_range};

verus! {

/// One wallet record: the address metadata for a derivation of one
/// descriptor.
#[derive(Debug, Clone, PartialEq, Eq)]
pub struct Entry {
    /// Position of the owning descriptor in the wallet's descriptor list.
    pub descriptor_index: u32,
    /// The derivation index under that descriptor.
    pub derivation_index: u32,
    /// Creation time, as a fixed 24-byte formatted string.
    pub timestamp: Vec<u8>,
    /// Freeform note.
    pub note: Vec<u8>,
    /// User identifier.
    pub user_id: Vec<u8>,
}

/// The abstract value of an [`Entry`].
pub struct EntryV {
    /// Position of the owning descriptor.
    pub descriptor_index: u32,
    /// The derivation index under that descriptor.
    pub derivation_index: u32,
    /// Creation time bytes.
    pub timestamp: Seq<u8>,
    /// Freeform note bytes.
    pub note: Seq<u8>,
    /// User identifier bytes.
    pub user_id: Seq<u8>,
}

impl View for Entry {
    type V = EntryV;

    open spec fn view(&self) -> EntryV {
        EntryV {
            descriptor_index: self.descriptor_index,
            derivation_index: self.derivation_index,
            timestamp: self.timestamp@,
            note: self.note@,
            user_id: self.user_id@,
        }
    }
}

impl EntryV {
    /// Field sizes fit the fixed plaintext layout.
    pub open spec fn wf(self) -> bool {
        &&& self.timestamp.len() == TIMESTAMP_BYTES
        &&& self.note.len() <= MAX_NOTE_BYTES
        &&& self.user_id.len() <= MAX_USER_ID_BYTES
    }
}

/// A run of zero bytes.
pub open spec fn zeros(n: int) -> Seq<u8> {
    Seq::new(n as nat, |i: int| 0u8)
}

/// The fixed 256-byte plaintext layout of an entry: the two indices,
/// the timestamp, then the length-prefixed note and user ID fields in
/// fixed-size slots, then padding.
pub open spec fn entry_bytes(e: EntryV) -> Seq<u8> {
    le32(e.descriptor_index) + le32(e.derivation_index) + e.timestamp + seq![e.note.len() as u8]
        + e.note + zeros(MAX_NOTE_BYTES - e.note.len()) + seq![e.user_id.len() as u8] + e.user_id
        + zeros(MAX_USER_ID_BYTES - e.user_id.len()) + zeros(130)
}

/// Appends `n` zero bytes to `v`.
fn push_zeros(v: &mut Vec<u8>, n: usize)
    ensures
        final(v)@ == old(v)@ + zeros(n as int),
{
    let mut i: usize = 0;
    while i < n
        invariant
            i <= n,
            v@ == old(v)@ + zeros(i as int),
        decreases n - i,
    {
        v.push(0u8);
        i += 1;
        proof {
            assert(v@ =~= old(v)@ + zeros(i as int));
        }
    }
}

/// Serializes one entry into its fixed plaintext form.
pub fn serialize_entry(e: &Entry) -> (r: Vec<u8>)
    requires
        e@.wf(),
    ensures
        r@ == entry_bytes(e@),
        r@.len() == DECRYPTED_ENTRY_SIZE,
{
    let mut r: Vec<u8> = Vec::new();
    push_le32(&mut r, e.descriptor_index);
    push_le32(&mut r, e.derivation_index);
    crate::crypto::push_all(&mut r, &e.timestamp);
    r.push(e.note.len() as u8);
    crate::crypto::push_all(&mut r, &e.note);
    push_zeros(&mut r, MAX_NOTE_BYTES - e.note.len());
    r.push(e.user_id.len() as u8);
    crate::crypto::push_all(&mut r, &e.user_id);
    push_zeros(&mut r, MAX_USER_ID_BYTES - e.user_id.len());
    push_zeros(&mut r, 130);
    proof {
        assert(r@ =~= entry_bytes(e@));
    }
    r
}

/// What parsing a fixed plaintext entry yields: nothing when a length
/// byte exceeds its field slot.
pub open spec fn parse_entry_spec(b: Seq<u8>) -> Option<EntryV>
    recommends
        b.len() == DECRYPTED_ENTRY_SIZE,
{
    let note_len = b[32] as int;
    let user_len = b[93] as int;
    if note_len <= MAX_NOTE_BYTES && user_len <= MAX_USER_ID_BYTES {
        Some(EntryV {
            descriptor_index: le32_val(b.subrange(0, 4)),
            derivation_index: le32_val(b.subrange(4, 8)),
            timestamp: b.subrange(8, 32),
            note: b.subrange(33, 33 + note_len),
            user_id: b.subrange(94, 94 + user_len),
        })
    } else {
        None
    }
}

/// Parses one fixed plaintext entry.
pub fn parse_entry(b: &Vec<u8>) -> (r: Option<Entry>)
    requires
        b@.len() == DECRYPTED_ENTRY_SIZE,
    ensures
        match r {
            Some(e) => parse_entry_spec(b@) == Some(e@) && e@.wf(),
            None => parse_entry_spec(b@) is None,
        },
{
    let note_len = b[32] as usize;
    let user_len = b[93] as usize;
    if note_len > MAX_NOTE_BYTES || user_len > MAX_USER_ID_BYTES {
        return None;
    }
    let e = Entry {
        descriptor_index: read_le32(b, 0),
        derivation_index: read_le32(b, 4),
        timestamp: copy_range(b, 8, 32),
        note: copy_range(b, 33, 33 + note_len),
        user_id: copy_range(b, 94, 94 + user_len),
    };
    Some(e)
}

/// Parsing a serialized well-formed entry yields the entry back.
pub proof fn lemma_entry_serialize_roundtrip(e: EntryV)
    requires
        e.wf(),
    ensures
        parse_entry_spec(entry_bytes(e)) == Some(e),
{
    let b = entry_bytes(e);
    assert(b.len() == DECRYPTED_ENTRY_SIZE);
    assert(b[32] == e.note.len() as u8);
    assert(b[93] == e.user_id.len() as u8);
    assert(b.subrange(0, 4) =~= le32(e.descriptor_index));
    assert(b.subrange(4, 8) =~= le32(e.derivation_index));
    assert(b.subrange(8, 32) =~= e.timestamp);
    assert(b.subrange(33, 33 + e.note.len() as int) =~= e.note);
    assert(b.subrange(94, 94 + e.user_id.len() as int) =~= e.user_id);
    crate::util::lemma_le32_roundtrip(e.descriptor_index);
    crate::util::lemma_le32_roundtrip(e.derivation_index);
}

/// No two entries claim the same `(descriptor index, derivation index)`
/// pair.
pub open spec fn pairs_unique(entries: Seq<EntryV>) -> bool {
    forall|i: int, j: int|
        #![trigger entries[i], entries[j]]
        0 <= i < j < entries.len() ==> !(entries[i].descriptor_index
            == entries[j].descriptor_index && entries[i].derivation_index
            == entries[j].derivation_index)
}

/// The first entry position holding the pair, or -1 when none does.
pub open spec fn find_pair(entries: Seq<EntryV>, d: u32, ix: u32) -> int
    decreases entries.len(),
{
    if entries.len() == 0 {
        -1
    } else if entries[0].descriptor_index == d && entries[0].derivation_index == ix {
        0
    } else {
        let r = find_pair(entries.skip(1), d, ix);
        if r == -1 {
            -1
        } else {
            r + 1
        }
    }
}

/// What `find_pair` finds: a real position holding the pair, or the
/// absence of the pair everywhere.
pub proof fn lemma_find_pair_props(entries: Seq<EntryV>, d: u32, ix: u32)
    ensures
        find_pair(entries, d, ix) == -1 ==> forall|j: int|
            0 <= j < entries.len() ==> !((#[trigger] entries[j]).descriptor_index == d
                && entries[j].derivation_index == ix),
        find_pair(entries, d, ix) != -1 ==> 0 <= find_pair(entries, d, ix) < entries.len()
            && entries[find_pair(entries, d, ix)].descriptor_index == d
            && entries[find_pair(entries, d, ix)].derivation_index == ix,
    decreases entries.len(),
{
    if entries.len() > 0 {
        let tail = entries.skip(1);
        lemma_find_pair_props(tail, d, ix);
        assert(forall|j: int| 0 <= j < tail.len() ==> #[trigger] tail[j] == entries[j + 1]);
        if !(entries[0].descriptor_index == d && entries[0].derivation_index == ix) {
            let r = find_pair(tail, d, ix);
            if r == -1 {
                assert forall|j: int| 0 <= j < entries.len() implies !((
                #[trigger] entries[j]).descriptor_index == d && entries[j].derivation_index
                    == ix) by {
                    if j > 0 {
                        assert(entries[j] == tail[j - 1]);
                    }
                }
            } else {
                assert(entries[r + 1] == tail[r]);
            }
        }
    }
}

/// The smallest derivation index larger than every one the descriptor
/// already uses; 0 when it uses none.  Deliberately one past the
/// largest, never a gap below it: an index freed of no entry is still
/// considered used, so addresses are never re-derived out of order.
pub open spec fn next_index_int(entries: Seq<EntryV>, d: u32) -> int
    decreases entries.len(),
{
    if entries.len() == 0 {
        0
    } else {
        let rest = next_index_int(entries.drop_last(), d);
        let l = entries.last();
        if l.descriptor_index == d && l.derivation_index + 1 > rest {
            l.derivation_index + 1
        } else {
            rest
        }
    }
}

/// The in-memory wallet: the persisted checkpoint and entries, plus the
/// descriptor list the entries derive from.
#[derive(Debug, Clone, PartialEq, Eq)]
pub struct Wallet {
    /// The highest block height fully processed.
    pub block_height: u64,
    /// The ordered descriptor list; a descriptor's position is its index.
    pub descriptors: Vec<String>,
    /// The address entries, in file order.
    pub entries: Vec<Entry>,
}

/// The abstract value of a [`Wallet`].
pub struct WalletV {
    /// The highest block height fully processed.
    pub block_height: u64,
    /// The descriptor texts, in index order.
    pub descriptors: Seq<Seq<char>>,
    /// The entries, in file order.
    pub entries: Seq<EntryV>,
}

impl View for Wallet {
    type V = WalletV;

    open spec fn view(&self) -> WalletV {
        WalletV {
            block_height: self.block_height,
            descriptors: self.descriptors@.map_values(|d: String| d@),
            entries: self.entries@.map_values(|e: Entry| e@),
        }
    }
}

impl WalletV {
    /// Every entry fits the fixed layout and the descriptor count fits
    /// the entry index field.
    pub open spec fn wf(self) -> bool {
        &&& forall|i: int| 0 <= i < self.entries.len() ==> (#[trigger] self.entries[i]).wf()
        &&& self.descriptors.len() <= 0xffffffff
    }
}

/// The encrypted forms of a run of entries whose first sits at file
/// position `base`, concatenated.
pub open spec fn entries_bytes_from(entries: Seq<EntryV>, key: Seq<u8>, nonce: Seq<u8>,
    base: int) -> Seq<u8>
    decreases entries.len(),
{
    if entries.len() == 0 {
        Seq::empty()
    } else {
        encrypt_spec(entry_bytes(entries[0]), key, nonce, base as usize) + entries_bytes_from(
            entries.skip(1),
            key,
            nonce,
            base + 1,
        )
    }
}

/// The serialized wallet file: magic, checkpoint height, encrypted
/// entries.
pub open spec fn wallet_bytes(w: WalletV, key: Seq<u8>, nonce: Seq<u8>) -> Seq<u8> {
    le64(MAGIC) + le64(w.block_height) + entries_bytes_from(w.entries, key, nonce, 0)
}

/// A run of `n` well-formed entries serializes to exactly `n` encrypted
/// entry blocks.
pub proof fn lemma_entries_bytes_len(entries: Seq<EntryV>, key: Seq<u8>, nonce: Seq<u8>,
    base: int)
    requires
        forall|i: int| 0 <= i < entries.len() ==> (#[trigger] entries[i]).wf(),
    ensures
        entries_bytes_from(entries, key, nonce, base).len() == ENCRYPTED_ENTRY_SIZE
            * entries.len(),
    decreases entries.len(),
{
    if entries.len() > 0 {
        assert(entry_bytes(entries[0]).len() == DECRYPTED_ENTRY_SIZE);
        crate::crypto::lemma_encrypt_spec_len(entry_bytes(entries[0]), key, nonce,
            base as usize);
        assert(forall|i: int| 0 <= i < entries.skip(1).len() ==> entries.skip(1)[i] == entries[i
            + 1]);
        lemma_entries_bytes_len(entries.skip(1), key, nonce, base + 1);
        assert(ENCRYPTED_ENTRY_SIZE * entries.len() == ENCRYPTED_ENTRY_SIZE + ENCRYPTED_ENTRY_SIZE
            * (entries.len() - 1)) by (nonlinear_arith)
            requires
                entries.len() >= 1,
        ;
    }
}

/// What loading the remaining entry blocks at file position `base`
/// yields: every block must decrypt and parse, or the whole load fails
/// with the first block's error.
pub open spec fn parse_entries_rec(body: Seq<u8>, key: Seq<u8>, nonce: Seq<u8>, base: int)
    -> Result<Seq<EntryV>, Error>
    decreases body.len(),
{
    if body.len() == 0 {
        Ok(Seq::empty())
    } else if body.len() < ENCRYPTED_ENTRY_SIZE {
        Err(Error::BadWalletSize { body_len: body.len() as usize })
    } else {
        match decrypt_spec(body.take(ENCRYPTED_ENTRY_SIZE as int), key, nonce, base as usize) {
            None => Err(Error::EntryDecryptionFailed { entry_index: base as usize }),
            Some(pt) => match parse_entry_spec(pt) {
                None => Err(Error::EntryMalformed { entry_index: base as usize }),
                Some(e) => match parse_entries_rec(body.skip(ENCRYPTED_ENTRY_SIZE as int), key,
                    nonce, base + 1) {
                    Err(err) => Err(err),
                    Ok(rest) => Ok(seq![e] + rest),
                },
            },
        }
    }
}

/// What opening a wallet file yields: the header is checked first — a
/// file without the identifying magic part is not a wallet file at all,
/// one with it but another version is refused as such — then the body
/// must be a whole number of entry blocks, each of which must decrypt
/// and parse.
pub open spec fn open_result(bytes: Seq<u8>, key: Seq<u8>, nonce: Seq<u8>) -> Result<
    WalletV,
    Error,
> {
    if bytes.len() < 16 {
        Err(Error::UnexpectedEof)
    } else {
        let magic = le64_val(bytes.subrange(0, 8));
        if magic >> 24 != MAGIC >> 24 {
            Err(Error::NotAWalletFile)
        } else if magic & 0xffffff != MAGIC & 0xffffff {
            Err(Error::WrongWalletVersion {
                expected: (MAGIC & 0xffffff) as u32,
                found: (magic & 0xffffff) as u32,
            })
        } else if (bytes.len() - 16) % (ENCRYPTED_ENTRY_SIZE as int) != 0 {
            Err(Error::BadWalletSize { body_len: (bytes.len() - 16) as usize })
        } else {
            match parse_entries_rec(bytes.skip(16), key, nonce, 0) {
                Err(e) => Err(e),
                Ok(entries) => if !pairs_unique(entries) {
                    Err(Error::DuplicateEntryPair)
                } else {
                    Ok(WalletV {
                        block_height: le64_val(bytes.subrange(8, 16)),
                        descriptors: Seq::empty(),
                        entries,
                    })
                },
            }
        }
    }
}

impl Wallet {
    /// A fresh wallet: no descriptors, no entries, checkpoint at zero.
    pub fn new() -> (r: Wallet)
        ensures
            r@.block_height == 0,
            r@.descriptors == Seq::<Seq<char>>::empty(),
            r@.entries == Seq::<EntryV>::empty(),
            r@.wf(),
    {
        let r = Wallet { block_height: 0, descriptors: Vec::new(), entries: Vec::new() };
        proof {
            assert(r@.descriptors =~= Seq::<Seq<char>>::empty());
            assert(r@.entries =~= Seq::<EntryV>::empty());
        }
        r
    }

    /// How many descriptors the wallet knows.
    pub fn n_descriptors(&self) -> (r: usize)
        ensures
            r == self@.descriptors.len(),
    {
        self.descriptors.len()
    }

    /// Appends a descriptor; its index is the previous count.
    pub fn add_descriptor(&mut self, desc: String)
        requires
            old(self)@.descriptors.len() < 0xffffffff,
        ensures
            final(self)@.descriptors == old(self)@.descriptors.push(desc@),
            final(self)@.entries == old(self)@.entries,
            final(self)@.block_height == old(self)@.block_height,
            old(self)@.wf() ==> final(self)@.wf(),
    {
        self.descriptors.push(desc);
        proof {
            assert(self@.descriptors =~= old(self)@.descriptors.push(desc@));
            assert(self@.entries =~= old(self)@.entries);
        }
    }

    /// Serializes the wallet: the header with the current checkpoint,
    /// then every entry re-encrypted under the deterministic per-entry
    /// nonce scheme.
    pub fn save(&self, key: &Vec<u8>, nonce: &Vec<u8>) -> (r: Vec<u8>)
        requires
            self@.wf(),
        ensures
            r@ == wallet_bytes(self@, key@, nonce@),
            r@.len() == 16 + ENCRYPTED_ENTRY_SIZE * self@.entries.len(),
    {
        let ghost ev = self@.entries;
        let mut r: Vec<u8> = Vec::new();
        push_le64(&mut r, MAGIC);
        push_le64(&mut r, self.block_height);
        let ghost header = r@;
        proof {
            assert(ev.skip(0) =~= ev);
        }
        let mut i: usize = 0;
        while i < self.entries.len()
            invariant
                self@.wf(),
                ev == self@.entries,
                i <= ev.len(),
                header == le64(MAGIC) + le64(self@.block_height),
                r@.len() == 16 + ENCRYPTED_ENTRY_SIZE * i,
                header + entries_bytes_from(ev, key@, nonce@, 0) == r@ + entries_bytes_from(
                    ev.skip(i as int),
                    key@,
                    nonce@,
                    i as int,
                ),
            decreases ev.len() - i,
        {
            let pt = serialize_entry(&self.entries[i]);
            proof {
                assert(self@.entries[i as int] == self.entries@[i as int]@);
            }
            let ct = encrypt_entry(&pt, key, nonce, i);
            let ghost r_pre = r@;
            crate::crypto::push_all(&mut r, &ct);
            i += 1;
            proof {
                let rem_pre = ev.skip(i - 1);
                let rem = ev.skip(i as int);
                assert(rem_pre[0] == ev[i - 1]);
                assert(rem_pre.skip(1) =~= rem);
                assert(entries_bytes_from(rem_pre, key@, nonce@, i - 1) == ct@
                    + entries_bytes_from(rem, key@, nonce@, i as int));
                assert(header + entries_bytes_from(ev, key@, nonce@, 0) =~= r@
                    + entries_bytes_from(rem, key@, nonce@, i as int));
            }
        }
        proof {
            assert(ev.skip(i as int) =~= Seq::<EntryV>::empty());
            assert(header + entries_bytes_from(ev, key@, nonce@, 0) =~= r@);
        }
        r
    }

    /// Loads a wallet from its serialized file bytes, enforcing the
    /// format's pair-uniqueness invariant over the decrypted entries.
    /// The descriptor list is not part of the file; it starts empty.
    pub fn open(bytes: &Vec<u8>, key: &Vec<u8>, nonce: &Vec<u8>) -> (r: Result<Wallet, Error>)
        ensures
            match r {
                Ok(w) => open_result(bytes@, key@, nonce@) == Ok::<WalletV, Error>(w@)
                    && w@.wf() && pairs_unique(w@.entries),
                Err(e) => open_result(bytes@, key@, nonce@) == Err::<WalletV, Error>(e),
            },
    {
        let len = bytes.len();
        if len < 16 {
            return Err(Error::UnexpectedEof);
        }
        let magic = read_le64(bytes, 0);
        if magic >> 24 != MAGIC >> 24 {
            return Err(Error::NotAWalletFile);
        }
        if magic & 0xffffff != MAGIC & 0xffffff {
            return Err(Error::WrongWalletVersion {
                expected: (MAGIC & 0xffffff) as u32,
                found: (magic & 0xffffff) as u32,
            });
        }
        let block_height = read_le64(bytes, 8);
        let body_len = len - 16;
        if body_len % ENCRYPTED_ENTRY_SIZE != 0 {
            return Err(Error::BadWalletSize { body_len });
        }
        let n = body_len / ENCRYPTED_ENTRY_SIZE;
        proof {
            vstd::arithmetic::div_mod::lemma_fundamental_div_mod(body_len as int,
                ENCRYPTED_ENTRY_SIZE as int);
        }
        let ghost body = bytes@.skip(16);
        let mut entries: Vec<Entry> = Vec::new();
        proof {
            assert(body.skip(0) =~= body);
            assert(entries@.map_values(|e: Entry| e@) =~= Seq::<EntryV>::empty());
            match parse_entries_rec(body, key@, nonce@, 0) {
                Ok(rest) => {
                    assert(Seq::<EntryV>::empty() + rest =~= rest);
                },
                Err(_) => {},
            }
        }
        let mut i: usize = 0;
        let mut off: usize = 16;
        while i < n
            invariant
                bytes@.len() == len,
                len >= 16,
                le64_val(bytes@.subrange(0, 8)) >> 24 == MAGIC >> 24,
                le64_val(bytes@.subrange(0, 8)) & 0xffffff == MAGIC & 0xffffff,
                block_height == le64_val(bytes@.subrange(8, 16)),
                (bytes@.len() - 16) % (ENCRYPTED_ENTRY_SIZE as int) == 0,
                body == bytes@.skip(16),
                body.len() == ENCRYPTED_ENTRY_SIZE * n,
                i <= n,
                off == 16 + ENCRYPTED_ENTRY_SIZE * i,
                entries@.len() == i,
                forall|k: int| 0 <= k < entries@.len() ==> (#[trigger] entries@[k])@.wf(),
                parse_entries_rec(body, key@, nonce@, 0) == match parse_entries_rec(
                    body.skip(ENCRYPTED_ENTRY_SIZE * i),
                    key@,
                    nonce@,
                    i as int,
                ) {
                    Ok(rest) => Ok::<Seq<EntryV>, Error>(entries@.map_values(|e: Entry| e@)
                        + rest),
                    Err(err) => Err::<Seq<EntryV>, Error>(err),
                },
            decreases n - i,
        {
            proof {
                assert(ENCRYPTED_ENTRY_SIZE * i + ENCRYPTED_ENTRY_SIZE == ENCRYPTED_ENTRY_SIZE * (i
                    + 1)) by (nonlinear_arith);
                assert(ENCRYPTED_ENTRY_SIZE * (i + 1) <= ENCRYPTED_ENTRY_SIZE * n)
                    by (nonlinear_arith)
                    requires
                        i < n,
                ;
            }
            let chunk = copy_range(bytes, off, off + ENCRYPTED_ENTRY_SIZE);
            let ghost rem = body.skip(ENCRYPTED_ENTRY_SIZE * i);
            proof {
                assert(rem.len() == ENCRYPTED_ENTRY_SIZE * (n - i)) by (nonlinear_arith)
                    requires
                        body.len() == ENCRYPTED_ENTRY_SIZE * n,
                        rem.len() == body.len() - ENCRYPTED_ENTRY_SIZE * i,
                        0 <= i <= n,
                ;
                assert(rem.len() >= ENCRYPTED_ENTRY_SIZE) by (nonlinear_arith)
                    requires
                        rem.len() == ENCRYPTED_ENTRY_SIZE * (n - i),
                        i < n,
                ;
                assert(chunk@ =~= rem.take(ENCRYPTED_ENTRY_SIZE as int));
                assert(rem.skip(ENCRYPTED_ENTRY_SIZE as int) =~= body.skip(ENCRYPTED_ENTRY_SIZE * (i
                    + 1)));
            }
            let pt = match decrypt_entry(&chunk, key, nonce, i) {
                Ok(pt) => pt,
                Err(e) => {
                    proof {
                        assert(parse_entries_rec(rem, key@, nonce@, i as int)
                            == Err::<Seq<EntryV>, Error>(Error::EntryDecryptionFailed {
                            entry_index: i,
                        }));
                        assert(parse_entries_rec(body, key@, nonce@, 0) == Err::<
                            Seq<EntryV>,
                            Error,
                        >(e));
                        assert(open_result(bytes@, key@, nonce@) == Err::<WalletV, Error>(e));
                    }
                    return Err(e);
                },
            };
            let e = match parse_entry(&pt) {
                Some(e) => e,
                None => {
                    proof {
                        assert(parse_entries_rec(rem, key@, nonce@, i as int)
                            == Err::<Seq<EntryV>, Error>(Error::EntryMalformed {
                            entry_index: i,
                        }));
                    }
                    return Err(Error::EntryMalformed { entry_index: i });
                },
            };
            let ghost evs_pre = entries@.map_values(|x: Entry| x@);
            entries.push(e);
            i += 1;
            off += ENCRYPTED_ENTRY_SIZE;
            proof {
                assert(entries@.map_values(|x: Entry| x@) =~= evs_pre.push(e@));
                assert forall|rest: Seq<EntryV>| evs_pre + (seq![e@] + rest) =~= entries@
                    .map_values(|x: Entry| x@) + rest by {}
            }
        }
        proof {
            assert(ENCRYPTED_ENTRY_SIZE * i == body.len());
            assert(body.skip(ENCRYPTED_ENTRY_SIZE * i) =~= Seq::<u8>::empty());
            assert(parse_entries_rec(body, key@, nonce@, 0) == Ok::<Seq<EntryV>, Error>(entries@
                .map_values(|e: Entry| e@) + Seq::<EntryV>::empty()));
            assert(entries@.map_values(|e: Entry| e@) + Seq::<EntryV>::empty() =~= entries@
                .map_values(|e: Entry| e@));
        }
        let ghost evs = entries@.map_values(|e: Entry| e@);
        let n_entries = entries.len();
        let mut j: usize = 0;
        while j < n_entries
            invariant
                bytes@.len() == len,
                len >= 16,
                le64_val(bytes@.subrange(0, 8)) >> 24 == MAGIC >> 24,
                le64_val(bytes@.subrange(0, 8)) & 0xffffff == MAGIC & 0xffffff,
                block_height == le64_val(bytes@.subrange(8, 16)),
                (bytes@.len() - 16) % (ENCRYPTED_ENTRY_SIZE as int) == 0,
                parse_entries_rec(bytes@.skip(16), key@, nonce@, 0) == Ok::<Seq<EntryV>, Error>(
                    evs,
                ),
                evs == entries@.map_values(|e: Entry| e@),
                n_entries == entries@.len(),
                j <= n_entries,
                forall|a: int, b: int|
                    #![trigger evs[a], evs[b]]
                    0 <= a < b < j ==> !(evs[a].descriptor_index == evs[b].descriptor_index
                        && evs[a].derivation_index == evs[b].derivation_index),
            decreases n_entries - j,
        {
            let mut i2: usize = 0;
            while i2 < j
                invariant
                    bytes@.len() == len,
                    len >= 16,
                    le64_val(bytes@.subrange(0, 8)) >> 24 == MAGIC >> 24,
                    le64_val(bytes@.subrange(0, 8)) & 0xffffff == MAGIC & 0xffffff,
                    block_height == le64_val(bytes@.subrange(8, 16)),
                    (bytes@.len() - 16) % (ENCRYPTED_ENTRY_SIZE as int) == 0,
                    parse_entries_rec(bytes@.skip(16), key@, nonce@, 0) == Ok::<
                        Seq<EntryV>,
                        Error,
                    >(evs),
                    evs == entries@.map_values(|e: Entry| e@),
                    n_entries == entries@.len(),
                    i2 <= j < n_entries,
                    forall|a: int| 0 <= a < i2 ==> !((#[trigger] evs[a]).descriptor_index
                        == evs[j as int].descriptor_index && evs[a].derivation_index
                        == evs[j as int].derivation_index),
                decreases j - i2,
        {
                let dup = {
                    let ea = &entries[i2];
                    let eb = &entries[j];
                    ea.descriptor_index == eb.descriptor_index && ea.derivation_index
                        == eb.derivation_index
                };
                proof {
                    assert(evs[i2 as int] == entries@[i2 as int]@);
                    assert(evs[j as int] == entries@[j as int]@);
                }
                if dup {
                    proof {
                        assert(!pairs_unique(evs));
                    }
                    return Err(Error::DuplicateEntryPair);
                }
                i2 += 1;
            }
            j += 1;
        }
        proof {
            assert(pairs_unique(evs));
        }
        let w = Wallet { block_height, descriptors: Vec::new(), entries };
        proof {
            assert(w@.descriptors =~= Seq::<Seq<char>>::empty());
        }
        Ok(w)
    }
}

/// The whole contract of recording one address, shared by
/// [`Wallet::add_address`] and the command core above it.  Success is
/// owed exactly when the descriptor index is in range, the note fits,
/// the chosen derivation index exists and the descriptor derives at it;
/// each error names its cause; on success the returned address and the
/// new entry sequence are fixed.
pub open spec fn add_address_contract(w0: WalletV, w1: WalletV, descriptor_index: usize,
    index: Option<u32>, timestamp: Seq<u8>, note: Seq<u8>, r: Result<NewAddress, Error>) -> bool {
    let n = w0.descriptors.len();
    let next = next_index_int(w0.entries, descriptor_index as u32);
    let chosen = match index {
        Some(ix) => ix,
        None => next as u32,
    };
    let index_fits = index is Some || next <= 0xffffffff;
    &&& (r is Ok <==> descriptor_index < n && note.len() <= MAX_NOTE_BYTES && index_fits
        && derivable(w0.descriptors[descriptor_index as int], chosen))
    &&& match r {
        Err(e) => w1 == w0 && ((descriptor_index >= n && e == Error::DescriptorIndexOutOfRange {
            index: descriptor_index,
            n_descriptors: n as usize,
        }) || (descriptor_index < n && note.len() > MAX_NOTE_BYTES && e == Error::NoteTooLong {
            len: note.len() as usize,
        }) || (descriptor_index < n && note.len() <= MAX_NOTE_BYTES && index is None && next
            > 0xffffffff && e == Error::DerivationIndexExhausted { descriptor_index }) || (
        descriptor_index < n && note.len() <= MAX_NOTE_BYTES && index_fits && !derivable(
            w0.descriptors[descriptor_index as int],
            chosen,
        ) && e == Error::BadDescriptor { descriptor_index })),
        Ok(a) => {
            let newE = EntryV {
                descriptor_index: descriptor_index as u32,
                derivation_index: a.derivation_index,
                timestamp,
                note,
                user_id: Seq::empty(),
            };
            let f = find_pair(w0.entries, descriptor_index as u32, a.derivation_index);
            &&& a.descriptor_index == descriptor_index
            &&& a.derivation_index == chosen
            &&& a.script_pubkey@ == spk_of(w0.descriptors[descriptor_index as int], chosen)
            &&& w1.block_height == w0.block_height
            &&& w1.descriptors == w0.descriptors
            &&& w1.entries == if f == -1 {
                w0.entries.push(newE)
            } else {
                w0.entries.update(f, newE)
            }
            &&& w1.wf()
            &&& (pairs_unique(w0.entries) ==> pairs_unique(w1.entries))
        },
    }
}

/// What `add_address` hands back: where the new address lives and the
/// script pubkey derived for it.
#[derive(Debug, Clone, PartialEq, Eq)]
pub struct NewAddress {
    /// The descriptor the address belongs to.
    pub descriptor_index: usize,
    /// The derivation index used.
    pub derivation_index: u32,
    /// The derived script pubkey.
    pub script_pubkey: Vec<u8>,
}

impl Wallet {
    /// The smallest derivation index above every one `d` already uses.
    fn next_unused_index(&self, d: u32) -> (r: u64)
        ensures
            r == next_index_int(self@.entries, d),
            r <= 0x100000000u64,
    {
        let ghost ev = self@.entries;
        let mut cur: u64 = 0;
        let mut k: usize = 0;
        proof {
            assert(ev.take(0) =~= Seq::<EntryV>::empty());
        }
        while k < self.entries.len()
            invariant
                ev == self@.entries,
                k <= ev.len(),
                cur == next_index_int(ev.take(k as int), d),
                cur <= 0x100000000u64,
            decreases ev.len() - k,
        {
            let e = &self.entries[k];
            proof {
                assert(ev.take(k + 1).drop_last() =~= ev.take(k as int));
                assert(ev.take(k + 1).last() == ev[k as int]);
            }
            if e.descriptor_index == d && (e.derivation_index as u64) + 1 > cur {
                cur = (e.derivation_index as u64) + 1;
            }
            k += 1;
        }
        proof {
            assert(ev.take(k as int) =~= ev);
        }
        cur
    }

    /// Records one new address entry: an existing entry with the same
    /// `(descriptor index, derivation index)` pair is overwritten in
    /// place, any other pair is appended, so the pair stays unique and
    /// entries never shrink.
    pub fn apply_new_address(&mut self, descriptor_index: u32, derivation_index: u32,
        timestamp: Vec<u8>, note: Vec<u8>)
        requires
            old(self)@.wf(),
            timestamp@.len() == TIMESTAMP_BYTES,
            note@.len() <= MAX_NOTE_BYTES,
        ensures
            ({
                let newE = EntryV {
                    descriptor_index,
                    derivation_index,
                    timestamp: timestamp@,
                    note: note@,
                    user_id: Seq::empty(),
                };
                let f = find_pair(old(self)@.entries, descriptor_index, derivation_index);
                &&& final(self)@.block_height == old(self)@.block_height
                &&& final(self)@.descriptors == old(self)@.descriptors
                &&& final(self)@.entries == if f == -1 {
                    old(self)@.entries.push(newE)
                } else {
                    old(self)@.entries.update(f, newE)
                }
                &&& final(self)@.wf()
                &&& pairs_unique(old(self)@.entries) ==> pairs_unique(final(self)@.entries)
            }),
    {
        let ghost ev = self@.entries;
        let d = descriptor_index;
        let ix = derivation_index;
        let entry = Entry {
            descriptor_index: d,
            derivation_index: ix,
            timestamp,
            note,
            user_id: Vec::new(),
        };
        let ghost newE = entry@;
        proof {
            assert(newE.user_id =~= Seq::<u8>::empty());
            assert(ev.skip(0) =~= ev);
            lemma_find_pair_props(ev, d, ix);
        }
        let mut i: usize = 0;
        let mut found: bool = false;
        let mut at: usize = 0;
        while i < self.entries.len() && !found
            invariant
                ev == self@.entries,
                i <= ev.len(),
                !found ==> forall|j: int| 0 <= j < i ==> !((#[trigger] ev[j]).descriptor_index
                    == d && ev[j].derivation_index == ix),
                !found ==> find_pair(ev, d, ix) == (if find_pair(ev.skip(i as int), d, ix) == -1 {
                    -1int
                } else {
                    i + find_pair(ev.skip(i as int), d, ix)
                }),
                found ==> at < ev.len() && find_pair(ev, d, ix) == at,
            decreases ev.len() - i + if found { 0int } else { 1int },
        {
            let e = &self.entries[i];
            proof {
                assert(ev.skip(i as int)[0] == ev[i as int]);
                assert(ev.skip(i as int).skip(1) =~= ev.skip(i + 1));
            }
            if e.descriptor_index == d && e.derivation_index == ix {
                proof {
                    assert(find_pair(ev.skip(i as int), d, ix) == 0);
                }
                found = true;
                at = i;
            } else {
                proof {
                    let rem = ev.skip(i as int);
                    let f1 = find_pair(rem, d, ix);
                    let f2 = find_pair(ev.skip(i + 1), d, ix);
                    lemma_find_pair_props(ev.skip(i + 1), d, ix);
                    assert(rem.len() > 0);
                    assert(!(rem[0].descriptor_index == d && rem[0].derivation_index == ix));
                    assert(rem.skip(1) == ev.skip(i + 1));
                    assert(f1 == (if f2 == -1 {
                        -1int
                    } else {
                        f2 + 1
                    }));
                    if f2 == -1 {
                        assert(find_pair(ev, d, ix) == -1);
                    } else {
                        assert(find_pair(ev, d, ix) == i + 1 + f2);
                    }
                }
                i += 1;
            }
        }
        proof {
            if !found {
                assert(ev.skip(i as int) =~= Seq::<EntryV>::empty());
                assert(find_pair(ev, d, ix) == -1);
            }
        }
        if found {
            self.entries.set(at, entry);
            proof {
                assert(self@.entries =~= ev.update(at as int, newE));
                if pairs_unique(ev) {
                    let f = at as int;
                    let new_entries = ev.update(f, newE);
                    assert(ev[f].descriptor_index == d && ev[f].derivation_index == ix);
                    assert forall|a: int, b: int|
                        #![trigger new_entries[a], new_entries[b]]
                        0 <= a < b < new_entries.len() implies !(new_entries[a].descriptor_index
                        == new_entries[b].descriptor_index && new_entries[a].derivation_index
                        == new_entries[b].derivation_index) by {
                        assert(ev[a] == if a == f {
                            ev[f]
                        } else {
                            new_entries[a]
                        });
                        assert(ev[b] == if b == f {
                            ev[f]
                        } else {
                            new_entries[b]
                        });
                    }
                }
            }
        } else {
            self.entries.push(entry);
            proof {
                assert(self@.entries =~= ev.push(newE));
                if pairs_unique(ev) {
                    let new_entries = ev.push(newE);
                    assert forall|a: int, b: int|
                        #![trigger new_entries[a], new_entries[b]]
                        0 <= a < b < new_entries.len() implies !(new_entries[a].descriptor_index
                        == new_entries[b].descriptor_index && new_entries[a].derivation_index
                        == new_entries[b].derivation_index) by {
                        if b == ev.len() {
                            assert(new_entries[a] == ev[a]);
                            assert(!(ev[a].descriptor_index == d && ev[a].derivation_index
                                == ix));
                        } else {
                            assert(new_entries[a] == ev[a] && new_entries[b] == ev[b]);
                        }
                    }
                }
            }
        }
    }

    /// Creates (or updates) the address at a descriptor's derivation
    /// index: validates the descriptor index, picks the next unused
    /// derivation index when none is given, derives the script pubkey
    /// through the descriptor library, and records the entry.  Only
    /// in-memory state changes; the caller is responsible for saving.
    pub fn add_address(&mut self, descriptor_index: usize, index: Option<u32>,
        timestamp: Vec<u8>, note: Vec<u8>) -> (r: Result<NewAddress, Error>)
        requires
            old(self)@.wf(),
            timestamp@.len() == TIMESTAMP_BYTES,
        ensures
            add_address_contract(old(self)@, final(self)@, descriptor_index, index, timestamp@,
                note@, r),
    {
        let n = self.descriptors.len();
        if descriptor_index >= n {
            return Err(Error::DescriptorIndexOutOfRange { index: descriptor_index,
                n_descriptors: n });
        }
        if note.len() > MAX_NOTE_BYTES {
            return Err(Error::NoteTooLong { len: note.len() });
        }
        let deriv: u32 = match index {
            Some(ix) => ix,
            None => {
                let next = self.next_unused_index(descriptor_index as u32);
                if next > 0xffffffffu64 {
                    return Err(Error::DerivationIndexExhausted { descriptor_index });
                }
                next as u32
            },
        };
        proof {
            assert(self@.descriptors[descriptor_index as int] == self.descriptors@[
                descriptor_index as int]@);
        }
        let spk = match derive_script_pubkey(self.descriptors[descriptor_index].as_str(), deriv) {
            Some(v) => v,
            None => {
                return Err(Error::BadDescriptor { descriptor_index });
            },
        };
        self.apply_new_address(descriptor_index as u32, deriv, timestamp, note);
        Ok(NewAddress { descriptor_index, derivation_index: deriv, script_pubkey: spk })
    }
}

/// Entries never shrink: recording an address appends or overwrites in
/// place, so historical addresses are never lost.
pub proof fn lemma_record_never_shrinks(entries: Seq<EntryV>, e: EntryV, f: int)
    requires
        -1 <= f < entries.len(),
    ensures
        (if f == -1 {
            entries.push(e)
        } else {
            entries.update(f, e)
        }).len() >= entries.len(),
{
}

/// A wallet file whose magic constant was altered in any way never
/// opens: the load fails with a format error, never partial success.
pub proof fn lemma_bad_magic_fails(bytes: Seq<u8>, key: Seq<u8>, nonce: Seq<u8>)
    requires
        bytes.len() >= 16,
        le64_val(bytes.subrange(0, 8)) != MAGIC,
    ensures
        open_result(bytes, key, nonce) matches Err(e) && (e matches Error::NotAWalletFile
            || e matches Error::WrongWalletVersion { .. }),
{
    let magic = le64_val(bytes.subrange(0, 8));
    if magic >> 24 == MAGIC >> 24 {
        assert(magic & 0xffffff != MAGIC & 0xffffff) by (bit_vector)
            requires
                magic != MAGIC,
                magic >> 24 == MAGIC >> 24,
                MAGIC == 0x96e88001u64,
        ;
    }
}

/// Round trip: opening a saved wallet whose entries keep the format's
/// pair-uniqueness invariant restores the checkpoint height and every
/// entry (the descriptor list is not part of the file).
pub proof fn lemma_save_open_roundtrip(w: WalletV, key: Seq<u8>, nonce: Seq<u8>)
    requires
        w.wf(),
        pairs_unique(w.entries),
    ensures
        open_result(wallet_bytes(w, key, nonce), key, nonce) matches Ok(w2)
            && w2.block_height == w.block_height && w2.entries == w.entries
            && w2.descriptors == Seq::<Seq<char>>::empty(),
{
    let bytes = wallet_bytes(w, key, nonce);
    lemma_entries_bytes_len(w.entries, key, nonce, 0);
    assert(bytes.len() == 16 + ENCRYPTED_ENTRY_SIZE * w.entries.len());
    assert(bytes.subrange(0, 8) =~= le64(MAGIC));
    assert(bytes.subrange(8, 16) =~= le64(w.block_height));
    crate::util::lemma_le64_roundtrip(MAGIC);
    crate::util::lemma_le64_roundtrip(w.block_height);
    assert((bytes.len() - 16) % (ENCRYPTED_ENTRY_SIZE as int) == 0) by (nonlinear_arith)
        requires
            bytes.len() - 16 == ENCRYPTED_ENTRY_SIZE * w.entries.len(),
    ;
    assert(bytes.skip(16) =~= entries_bytes_from(w.entries, key, nonce, 0));
    lemma_parse_entries_roundtrip(w.entries, key, nonce, 0);
}

/// Each saved run of entries loads back to exactly those entries.
#[verifier::rlimit(50)]
proof fn lemma_parse_entries_roundtrip(entries: Seq<EntryV>, key: Seq<u8>, nonce: Seq<u8>,
    base: int)
    requires
        forall|i: int| 0 <= i < entries.len() ==> (#[trigger] entries[i]).wf(),
        base >= 0,
    ensures
        parse_entries_rec(entries_bytes_from(entries, key, nonce, base), key, nonce, base)
            == Ok::<Seq<EntryV>, Error>(entries),
    decreases entries.len(),
{
    let body = entries_bytes_from(entries, key, nonce, base);
    if entries.len() == 0 {
        assert(body.len() == 0);
        assert(entries =~= Seq::<EntryV>::empty());
    } else {
        let e0 = entries[0];
        let eb = entry_bytes(e0);
        let chunk = encrypt_spec(eb, key, nonce, base as usize);
        crate::crypto::lemma_encrypt_spec_len(eb, key, nonce, base as usize);
        let tail = entries.skip(1);
        assert(forall|i: int| 0 <= i < tail.len() ==> tail[i] == entries[i + 1]);
        lemma_entries_bytes_len(tail, key, nonce, base + 1);
        assert(body.take(ENCRYPTED_ENTRY_SIZE as int) =~= chunk);
        assert(body.skip(ENCRYPTED_ENTRY_SIZE as int) =~= entries_bytes_from(tail, key, nonce,
            base + 1));
        crate::crypto::lemma_entry_roundtrip(eb, key, nonce, base as usize);
        lemma_entry_serialize_roundtrip(e0);
        lemma_parse_entries_roundtrip(tail, key, nonce, base + 1);
        assert(seq![e0] + tail =~= entries);
    }
}

} // verus!
