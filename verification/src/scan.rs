//! The blockchain rescan engine.
//!
//! A rescan walks blocks in height order, matches every output's script
//! pubkey against a cache derived from the wallet's entries, records
//! received and spent outputs, and advances a persisted checkpoint every
//! fixed number of blocks.  Matching is a pure function of block
//! contents and current entries, so re-scanning a range reproduces the
//! same events.  Fetching blocks and querying the chain tip belong to
//! the caller; the engine decides heights, matches and checkpoints.

use vstd::prelude::*;
use crate::constants::{LOOKBACK_MARGIN, CHECKPOINT_INTERVAL};
use crate::crypto::bytes_equal;
use crate::descriptor::{spk_of, derivable, derive_script_pubkey};
use crate::error::Error;
use crate::wallet::Wallet;

verus! {

/// The abstract value of one script-pubkey cache line.
pub struct CacheItemV {
    /// The derived script pubkey.
    pub script_pubkey: Seq<u8>,
    /// The descriptor it came from.
    pub descriptor_index: u32,
    /// The derivation index it came from.
    pub derivation_index: u32,
}

/// One script-pubkey cache line: a derived script pubkey and where it
/// came from.
pub struct SpkCacheItem {
    /// The derived script pubkey.
    pub script_pubkey: Vec<u8>,
    /// The descriptor it came from.
    pub descriptor_index: u32,
    /// The derivation index it came from.
    pub derivation_index: u32,
}

impl View for SpkCacheItem {
    type V = CacheItemV;

    open spec fn view(&self) -> CacheItemV {
        CacheItemV {
            script_pubkey: self.script_pubkey@,
            descriptor_index: self.descriptor_index,
            derivation_index: self.derivation_index,
        }
    }
}

/// The ephemeral script-pubkey cache, rebuilt from the wallet's entries
/// at rescan start; it must be rebuilt or extended whenever addresses
/// are created, or matches will silently fail.
pub struct SpkCache {
    /// The cache lines, one per wallet entry.
    pub items: Vec<SpkCacheItem>,
}

impl View for SpkCache {
    type V = Seq<CacheItemV>;

    open spec fn view(&self) -> Seq<CacheItemV> {
        self.items@.map_values(|x: SpkCacheItem| x@)
    }
}

/// The first cache line holding the script pubkey, if any.
pub open spec fn cache_lookup(items: Seq<CacheItemV>, spk: Seq<u8>) -> Option<(u32, u32)>
    decreases items.len(),
{
    if items.len() == 0 {
        None
    } else if items[0].script_pubkey == spk {
        Some((items[0].descriptor_index, items[0].derivation_index))
    } else {
        cache_lookup(items.skip(1), spk)
    }
}

impl SpkCache {
    /// Looks a script pubkey up, yielding the owning
    /// `(descriptor index, derivation index)` of the first match.
    pub fn lookup(&self, spk: &Vec<u8>) -> (r: Option<(u32, u32)>)
        ensures
            r == cache_lookup(self@, spk@),
    {
        let ghost items = self@;
        proof {
            assert(items.skip(0) =~= items);
        }
        let mut i: usize = 0;
        while i < self.items.len()
            invariant
                items == self@,
                i <= items.len(),
                cache_lookup(items, spk@) == cache_lookup(items.skip(i as int), spk@),
            decreases items.len() - i,
        {
            proof {
                assert(items.skip(i as int)[0] == items[i as int]);
                assert(items.skip(i as int).skip(1) =~= items.skip(i + 1));
            }
            let item = &self.items[i];
            if bytes_equal(&item.script_pubkey, spk) {
                return Some((item.descriptor_index, item.derivation_index));
            }
            i += 1;
        }
        proof {
            assert(items.skip(i as int) =~= Seq::<CacheItemV>::empty());
        }
        None
    }
}

/// The abstract value of one tracked transaction output.
pub struct TxoV {
    /// The funding transaction id.
    pub txid: Seq<u8>,
    /// The output position within that transaction.
    pub vout: u32,
    /// The descriptor whose address received it.
    pub descriptor_index: u32,
    /// The derivation index of that address.
    pub derivation_index: u32,
}

/// One transaction output the wallet received, kept so that later
/// inputs spending it are recognized.
pub struct TxoRecord {
    /// The funding transaction id.
    pub txid: Vec<u8>,
    /// The output position within that transaction.
    pub vout: u32,
    /// The descriptor whose address received it.
    pub descriptor_index: u32,
    /// The derivation index of that address.
    pub derivation_index: u32,
}

impl View for TxoRecord {
    type V = TxoV;

    open spec fn view(&self) -> TxoV {
        TxoV {
            txid: self.txid@,
            vout: self.vout,
            descriptor_index: self.descriptor_index,
            derivation_index: self.derivation_index,
        }
    }
}

/// The set of outputs the wallet has seen itself receive; records are
/// only ever added, so a re-scan recognizes the same spends.
pub struct TxoSet {
    /// The records, in discovery order.
    pub items: Vec<TxoRecord>,
}

impl View for TxoSet {
    type V = Seq<TxoV>;

    open spec fn view(&self) -> Seq<TxoV> {
        self.items@.map_values(|x: TxoRecord| x@)
    }
}

/// The owner of the first record matching the outpoint, if any.
pub open spec fn txo_lookup(items: Seq<TxoV>, txid: Seq<u8>, vout: u32) -> Option<(u32, u32)>
    decreases items.len(),
{
    if items.len() == 0 {
        None
    } else if items[0].txid == txid && items[0].vout == vout {
        Some((items[0].descriptor_index, items[0].derivation_index))
    } else {
        txo_lookup(items.skip(1), txid, vout)
    }
}

impl TxoSet {
    /// An empty set.
    pub fn new() -> (r: TxoSet)
        ensures
            r@ == Seq::<TxoV>::empty(),
    {
        let r = TxoSet { items: Vec::new() };
        proof {
            assert(r@ =~= Seq::<TxoV>::empty());
        }
        r
    }

    /// Looks an outpoint up.
    pub fn lookup(&self, txid: &Vec<u8>, vout: u32) -> (r: Option<(u32, u32)>)
        ensures
            r == txo_lookup(self@, txid@, vout),
    {
        let ghost items = self@;
        proof {
            assert(items.skip(0) =~= items);
        }
        let mut i: usize = 0;
        while i < self.items.len()
            invariant
                items == self@,
                i <= items.len(),
                txo_lookup(items, txid@, vout) == txo_lookup(items.skip(i as int), txid@, vout),
            decreases items.len() - i,
        {
            proof {
                assert(items.skip(i as int)[0] == items[i as int]);
                assert(items.skip(i as int).skip(1) =~= items.skip(i + 1));
            }
            let item = &self.items[i];
            if item.vout == vout && bytes_equal(&item.txid, txid) {
                return Some((item.descriptor_index, item.derivation_index));
            }
            i += 1;
        }
        proof {
            assert(items.skip(i as int) =~= Seq::<TxoV>::empty());
        }
        None
    }
}

/// The abstract value of one block output.
pub struct OutV {
    /// The transaction id creating the output.
    pub txid: Seq<u8>,
    /// The output position.
    pub vout: u32,
    /// The output's script pubkey.
    pub script_pubkey: Seq<u8>,
}

/// One output of a block: the outpoint that names it and its script
/// pubkey.
pub struct BlockOutput {
    /// The transaction id creating the output.
    pub txid: Vec<u8>,
    /// The output position.
    pub vout: u32,
    /// The output's script pubkey.
    pub script_pubkey: Vec<u8>,
}

impl View for BlockOutput {
    type V = OutV;

    open spec fn view(&self) -> OutV {
        OutV { txid: self.txid@, vout: self.vout, script_pubkey: self.script_pubkey@ }
    }
}

/// The abstract value of one spent outpoint.
pub struct InV {
    /// The transaction id of the output being spent.
    pub txid: Seq<u8>,
    /// The position of the output being spent.
    pub vout: u32,
}

/// One input of a block: the outpoint it spends.
pub struct BlockInput {
    /// The transaction id of the output being spent.
    pub txid: Vec<u8>,
    /// The position of the output being spent.
    pub vout: u32,
}

impl View for BlockInput {
    type V = InV;

    open spec fn view(&self) -> InV {
        InV { txid: self.txid@, vout: self.vout }
    }
}

/// The abstract value of a block's wallet-relevant content.
pub struct BlockV {
    /// Every output the block creates.
    pub outputs: Seq<OutV>,
    /// Every outpoint the block spends.
    pub inputs: Seq<InV>,
}

/// A block's wallet-relevant content, as plain values.
pub struct BlockData {
    /// Every output the block creates.
    pub outputs: Vec<BlockOutput>,
    /// Every outpoint the block spends.
    pub inputs: Vec<BlockInput>,
}

impl View for BlockData {
    type V = BlockV;

    open spec fn view(&self) -> BlockV {
        BlockV {
            outputs: self.outputs@.map_values(|o: BlockOutput| o@),
            inputs: self.inputs@.map_values(|i: BlockInput| i@),
        }
    }
}

/// Scanning a block's outputs front to back: each output whose script
/// pubkey is in the cache yields a received event, and is recorded in
/// the set unless its outpoint is already there.
pub open spec fn scan_outputs(cache: Seq<CacheItemV>, txos: Seq<TxoV>, outs: Seq<OutV>) -> (
    Seq<TxoV>,
    Seq<TxoV>,
)
    decreases outs.len(),
{
    if outs.len() == 0 {
        (Seq::empty(), txos)
    } else {
        let o = outs[0];
        match cache_lookup(cache, o.script_pubkey) {
            None => scan_outputs(cache, txos, outs.skip(1)),
            Some(pair) => {
                let rec = TxoV {
                    txid: o.txid,
                    vout: o.vout,
                    descriptor_index: pair.0,
                    derivation_index: pair.1,
                };
                let txos2 = if txo_lookup(txos, o.txid, o.vout) is Some {
                    txos
                } else {
                    txos.push(rec)
                };
                let rest = scan_outputs(cache, txos2, outs.skip(1));
                (seq![rec] + rest.0, rest.1)
            },
        }
    }
}

/// Scanning a block's inputs front to back: each input spending a
/// recorded outpoint yields a spent event.
pub open spec fn scan_inputs(txos: Seq<TxoV>, ins: Seq<InV>) -> Seq<TxoV>
    decreases ins.len(),
{
    if ins.len() == 0 {
        Seq::empty()
    } else {
        let rest = scan_inputs(txos, ins.skip(1));
        match txo_lookup(txos, ins[0].txid, ins[0].vout) {
            None => rest,
            Some(pair) => seq![
                TxoV {
                    txid: ins[0].txid,
                    vout: ins[0].vout,
                    descriptor_index: pair.0,
                    derivation_index: pair.1,
                },
            ] + rest,
        }
    }
}

/// Scans one block against the cache: outputs first (recording received
/// outpoints), then inputs against the updated record set, so a spend
/// of an output received earlier in the same block is seen.  Returns
/// the received and the spent events, in block order.
pub fn scan_block(cache: &SpkCache, txos: &mut TxoSet, block: &BlockData) -> (r: (
    Vec<TxoRecord>,
    Vec<TxoRecord>,
))
    ensures
        ({
            let so = scan_outputs(cache@, old(txos)@, block@.outputs);
            &&& r.0@.map_values(|t: TxoRecord| t@) == so.0
            &&& final(txos)@ == so.1
            &&& r.1@.map_values(|t: TxoRecord| t@) == scan_inputs(so.1, block@.inputs)
        }),
{
    let ghost cachev = cache@;
    let ghost txos0 = old(txos)@;
    let ghost outsv = block@.outputs;
    let mut received: Vec<TxoRecord> = Vec::new();
    proof {
        assert(outsv.skip(0) =~= outsv);
        assert(received@.map_values(|t: TxoRecord| t@) =~= Seq::<TxoV>::empty());
        let so = scan_outputs(cachev, txos0, outsv);
        assert(Seq::<TxoV>::empty() + so.0 =~= so.0);
    }
    let mut k: usize = 0;
    while k < block.outputs.len()
        invariant
            cachev == cache@,
            outsv == block@.outputs,
            k <= outsv.len(),
            scan_outputs(cachev, txos0, outsv).0 == received@.map_values(|t: TxoRecord| t@)
                + scan_outputs(cachev, txos@, outsv.skip(k as int)).0,
            scan_outputs(cachev, txos0, outsv).1 == scan_outputs(
                cachev,
                txos@,
                outsv.skip(k as int),
            ).1,
        decreases outsv.len() - k,
    {
        let ghost rem = outsv.skip(k as int);
        proof {
            assert(rem[0] == outsv[k as int]);
            assert(rem.skip(1) =~= outsv.skip(k + 1));
            assert(block.outputs@[k as int]@ == outsv[k as int]);
        }
        let o = &block.outputs[k];
        match cache.lookup(&o.script_pubkey) {
            None => {},
            Some((d, ix)) => {
                let rec = TxoRecord {
                    txid: crate::util::copy_range(&o.txid, 0, o.txid.len()),
                    vout: o.vout,
                    descriptor_index: d,
                    derivation_index: ix,
                };
                proof {
                    assert(rec@.txid =~= o.txid@);
                }
                let ghost recv_pre = received@.map_values(|t: TxoRecord| t@);
                if txos.lookup(&o.txid, o.vout).is_none() {
                    let rec2 = TxoRecord {
                        txid: crate::util::copy_range(&o.txid, 0, o.txid.len()),
                        vout: o.vout,
                        descriptor_index: d,
                        derivation_index: ix,
                    };
                    let ghost txos_pre = txos@;
                    txos.items.push(rec2);
                    proof {
                        assert(txos@ =~= txos_pre.push(rec2@));
                        assert(rec2@ == rec@);
                    }
                }
                received.push(rec);
                proof {
                    assert(received@.map_values(|t: TxoRecord| t@) =~= recv_pre.push(rec@));
                    let tail = scan_outputs(cachev, txos@, outsv.skip(k + 1));
                    assert(recv_pre + (seq![rec@] + tail.0) =~= recv_pre.push(rec@) + tail.0);
                }
            },
        }
        k += 1;
    }
    proof {
        assert(outsv.skip(k as int) =~= Seq::<OutV>::empty());
        let so = scan_outputs(cachev, txos0, outsv);
        assert(received@.map_values(|t: TxoRecord| t@) + Seq::<TxoV>::empty() =~= received@
            .map_values(|t: TxoRecord| t@));
        assert(so.0 == received@.map_values(|t: TxoRecord| t@));
        assert(so.1 == txos@);
    }
    let ghost txos1 = txos@;
    let ghost insv = block@.inputs;
    let mut spent: Vec<TxoRecord> = Vec::new();
    proof {
        assert(insv.skip(0) =~= insv);
        assert(spent@.map_values(|t: TxoRecord| t@) =~= Seq::<TxoV>::empty());
        assert(Seq::<TxoV>::empty() + scan_inputs(txos1, insv) =~= scan_inputs(txos1, insv));
    }
    let mut k2: usize = 0;
    while k2 < block.inputs.len()
        invariant
            txos@ == txos1,
            insv == block@.inputs,
            k2 <= insv.len(),
            scan_inputs(txos1, insv) == spent@.map_values(|t: TxoRecord| t@) + scan_inputs(
                txos1,
                insv.skip(k2 as int),
            ),
        decreases insv.len() - k2,
    {
        let ghost rem = insv.skip(k2 as int);
        proof {
            assert(rem[0] == insv[k2 as int]);
            assert(rem.skip(1) =~= insv.skip(k2 + 1));
            assert(block.inputs@[k2 as int]@ == insv[k2 as int]);
        }
        let inp = &block.inputs[k2];
        match txos.lookup(&inp.txid, inp.vout) {
            None => {},
            Some((d, ix)) => {
                let rec = TxoRecord {
                    txid: crate::util::copy_range(&inp.txid, 0, inp.txid.len()),
                    vout: inp.vout,
                    descriptor_index: d,
                    derivation_index: ix,
                };
                let ghost spent_pre = spent@.map_values(|t: TxoRecord| t@);
                proof {
                    assert(rec@.txid =~= inp.txid@);
                }
                spent.push(rec);
                proof {
                    assert(spent@.map_values(|t: TxoRecord| t@) =~= spent_pre.push(rec@));
                    let tail = scan_inputs(txos1, insv.skip(k2 + 1));
                    assert(spent_pre + (seq![rec@] + tail) =~= spent_pre.push(rec@) + tail);
                }
            },
        }
        k2 += 1;
    }
    proof {
        assert(insv.skip(k2 as int) =~= Seq::<InV>::empty());
        assert(spent@.map_values(|t: TxoRecord| t@) + Seq::<TxoV>::empty() =~= spent@.map_values(
            |t: TxoRecord| t@,
        ));
    }
    (received, spent)
}

/// Whether one wallet entry can supply its cache line: its descriptor
/// index is in range and the descriptor derives at its derivation
/// index.
pub open spec fn entry_cacheable(w: crate::wallet::WalletV, k: int) -> bool {
    &&& w.entries[k].descriptor_index < w.descriptors.len()
    &&& derivable(
        w.descriptors[w.entries[k].descriptor_index as int],
        w.entries[k].derivation_index,
    )
}

/// Builds the script-pubkey cache from every wallet entry, deriving
/// each entry's script pubkey through the descriptor library.  Success
/// is owed exactly when every entry's descriptor index is in range and
/// derives; otherwise the first failing entry names the error.
pub fn script_pubkey_cache(wallet: &Wallet) -> (r: Result<SpkCache, Error>)
    ensures
        r is Ok <==> (forall|k: int| 0 <= k < wallet@.entries.len() ==> entry_cacheable(
            wallet@,
            k,
        )),
        r matches Ok(c) ==> c@.len() == wallet@.entries.len() && forall|k: int|
            0 <= k < c@.len() ==> (#[trigger] c@[k]).descriptor_index
                == wallet@.entries[k].descriptor_index && c@[k].derivation_index
                == wallet@.entries[k].derivation_index && c@[k].script_pubkey == spk_of(
                wallet@.descriptors[wallet@.entries[k].descriptor_index as int],
                wallet@.entries[k].derivation_index,
            ),
        r matches Err(e) ==> exists|k: int|
            0 <= k < wallet@.entries.len() && !#[trigger] entry_cacheable(wallet@, k) && (
            forall|j: int| 0 <= j < k ==> entry_cacheable(wallet@, j)) && e == (if wallet@
                .entries[k].descriptor_index >= wallet@.descriptors.len() {
                Error::DescriptorIndexOutOfRange {
                    index: wallet@.entries[k].descriptor_index as usize,
                    n_descriptors: wallet@.descriptors.len() as usize,
                }
            } else {
                Error::BadDescriptor {
                    descriptor_index: wallet@.entries[k].descriptor_index as usize,
                }
            }),
{
    let mut items: Vec<SpkCacheItem> = Vec::new();
    let mut k: usize = 0;
    while k < wallet.entries.len()
        invariant
            k <= wallet@.entries.len(),
            items@.len() == k,
            forall|j: int| 0 <= j < k ==> entry_cacheable(wallet@, j),
            forall|j: int| 0 <= j < k ==> (#[trigger] items@[j])@.descriptor_index
                == wallet@.entries[j].descriptor_index && items@[j]@.derivation_index
                == wallet@.entries[j].derivation_index && items@[j]@.script_pubkey == spk_of(
                wallet@.descriptors[wallet@.entries[j].descriptor_index as int],
                wallet@.entries[j].derivation_index,
            ),
        decreases wallet@.entries.len() - k,
    {
        let e = &wallet.entries[k];
        let d = e.descriptor_index as usize;
        proof {
            assert(wallet@.entries[k as int] == wallet.entries@[k as int]@);
        }
        if d >= wallet.descriptors.len() {
            proof {
                assert(!entry_cacheable(wallet@, k as int));
            }
            return Err(Error::DescriptorIndexOutOfRange {
                index: d,
                n_descriptors: wallet.descriptors.len(),
            });
        }
        proof {
            assert(wallet@.descriptors[d as int] == wallet.descriptors@[d as int]@);
        }
        let spk = match derive_script_pubkey(wallet.descriptors[d].as_str(), e.derivation_index) {
            Some(v) => v,
            None => {
                proof {
                    assert(!entry_cacheable(wallet@, k as int));
                }
                return Err(Error::BadDescriptor { descriptor_index: d });
            },
        };
        items.push(SpkCacheItem {
            script_pubkey: spk,
            descriptor_index: e.descriptor_index,
            derivation_index: e.derivation_index,
        });
        proof {
            assert(entry_cacheable(wallet@, k as int));
        }
        k += 1;
    }
    let c = SpkCache { items };
    Ok(c)
}

/// Scanning a run of blocks: per block, outputs then inputs, with the
/// record set carried forward.  Yields all received events, all spent
/// events, and the final record set.
pub open spec fn scan_chain(cache: Seq<CacheItemV>, txos: Seq<TxoV>, blocks: Seq<BlockV>) -> (
    Seq<TxoV>,
    Seq<TxoV>,
    Seq<TxoV>,
)
    decreases blocks.len(),
{
    if blocks.len() == 0 {
        (Seq::empty(), Seq::empty(), txos)
    } else {
        let so = scan_outputs(cache, txos, blocks[0].outputs);
        let sp = scan_inputs(so.1, blocks[0].inputs);
        let rest = scan_chain(cache, so.1, blocks.skip(1));
        (so.0 + rest.0, sp + rest.1, rest.2)
    }
}

/// Rescan idempotence: matching is a pure function of the cache, the
/// record set and the blocks, so scanning the same range twice from the
/// same wallet state yields identical received and spent event runs.
pub proof fn lemma_rescan_idempotent(cache1: Seq<CacheItemV>, cache2: Seq<CacheItemV>,
    txos1: Seq<TxoV>, txos2: Seq<TxoV>, blocks1: Seq<BlockV>, blocks2: Seq<BlockV>)
    requires
        cache1 == cache2,
        txos1 == txos2,
        blocks1 == blocks2,
    ensures
        scan_chain(cache1, txos1, blocks1) == scan_chain(cache2, txos2, blocks2),
{
}

/// Where a rescan starts: the larger of the user-specified start and
/// the lookback margin before the persisted checkpoint (zero when the
/// checkpoint is below the margin), so a scan never begins further
/// back than the margin requires.
pub open spec fn start_height_spec(start_from: Option<u64>, checkpoint: u64) -> u64 {
    let floor = if checkpoint >= LOOKBACK_MARGIN {
        (checkpoint - LOOKBACK_MARGIN) as u64
    } else {
        0u64
    };
    match start_from {
        Some(s) => if s >= floor {
            s
        } else {
            floor
        },
        None => floor,
    }
}

/// The height loop of one rescan: the next height to fetch, when to
/// checkpoint, and the dynamic chain tip.
pub struct Rescanner {
    /// The next height to process.
    pub height: u64,
    /// The chain tip as last observed; re-queried when reached.
    pub tip: u64,
}

impl Rescanner {
    /// Starts a rescan at the larger of the explicit start height and
    /// the lookback margin before the checkpoint.
    pub fn new(start_from: Option<u64>, checkpoint: u64, tip: u64) -> (r: Rescanner)
        ensures
            r.height == start_height_spec(start_from, checkpoint),
            r.tip == tip,
    {
        let floor: u64 = if checkpoint >= LOOKBACK_MARGIN {
            checkpoint - LOOKBACK_MARGIN
        } else {
            0
        };
        let height: u64 = match start_from {
            Some(s) => if s >= floor {
                s
            } else {
                floor
            },
            None => floor,
        };
        Rescanner { height, tip }
    }

    /// The height to fetch next, or nothing once the tip is reached.
    pub fn next_block(&self) -> (r: Option<u64>)
        ensures
            self.height < self.tip ==> r == Some(self.height),
            self.height >= self.tip ==> r is None,
    {
        if self.height < self.tip {
            Some(self.height)
        } else {
            None
        }
    }

    /// Whether the wallet should be persisted before processing the
    /// current height.
    pub fn checkpoint_due(&self) -> (r: bool)
        ensures
            r == (self.height > 0 && self.height % CHECKPOINT_INTERVAL == 0),
    {
        self.height > 0 && self.height % CHECKPOINT_INTERVAL == 0
    }

    /// Moves past the current height.
    pub fn advance(&mut self)
        requires
            old(self).height < old(self).tip,
        ensures
            final(self).height == old(self).height + 1,
            final(self).tip == old(self).tip,
    {
        self.height = self.height + 1;
    }

    /// Whether the previously observed tip has been reached, so the
    /// chain height must be re-queried before concluding.
    pub fn at_tip(&self) -> (r: bool)
        ensures
            r == (self.height >= self.tip),
    {
        self.height >= self.tip
    }

    /// Records a re-queried chain tip; blocks mined during the rescan
    /// extend the loop rather than being missed.
    pub fn observe_tip(&mut self, tip: u64)
        ensures
            final(self).height == old(self).height,
            final(self).tip == tip,
    {
        self.tip = tip;
    }

    /// The checkpoint to persist now: never below the already persisted
    /// height, never above the observed chain tip.
    pub fn checkpoint_height(&self, current: u64) -> (r: u64)
        ensures
            r == vstd::math::max(
                current as int,
                vstd::math::min(self.height as int, self.tip as int),
            ),
            r >= current,
            current <= self.tip ==> r <= self.tip,
    {
        let reached: u64 = if self.height < self.tip {
            self.height
        } else {
            self.tip
        };
        if reached < current {
            current
        } else {
            reached
        }
    }
}

/// Checkpoint monotonicity: what a rescan persists never goes below the
/// previously persisted height, and never beyond the chain tip it
/// observed (provided the previous checkpoint itself did not).
pub proof fn lemma_checkpoint_monotone(current: u64, height: u64, tip: u64)
    ensures
        vstd::math::max(current as int, vstd::math::min(height as int, tip as int))
            >= current,
        current <= tip ==> vstd::math::max(
            current as int,
            vstd::math::min(height as int, tip as int),
        ) <= tip,
{
}

} // verus!
