//! The accumulator that chains every batch to the root before it.
//!
//! The leaves of a batch are the previous root and the hash of every entry,
//! in the order of the batch. Layer by layer, neighbours are hashed in pairs
//! until one hash is left: the new root. All layers are persisted under the
//! new height.

use crate::backend::store::{lookup, Store};
use crate::error::Error;
use crate::merkle::hash::{zero_bytes, zero_hash, Hasher};
use crate::merkle::{is_merkle_key, Merkle};
use crate::model::model::pairs_view;
use crate::operation::{Operation, OperationBytes};
use crate::order::bytes_eq;
use crate::snapshot::utils::{merkle_key, spec_merkle_key};
use crate::snapshot::value::{
    decode_operation_record, encode_operation_record, operation_record, parse_operation_record,
};
use vstd::prelude::*;
use vstd::utf8::encode_utf8;

verus! {

/// The sequences of `hashes`, one after the other.
pub open spec fn flatten(hashes: Seq<Seq<u8>>) -> Seq<u8>
    decreases hashes.len(),
{
    if hashes.len() == 0 {
        Seq::empty()
    } else {
        flatten(hashes.drop_last()) + hashes.last()
    }
}

/// The index of the right neighbour of `left` in a layer of `len` hashes:
/// the next index, or the last one where `left` is the last.
pub open spec fn right_of(left: int, len: int) -> int {
    if left + 1 < len {
        left + 1
    } else {
        len - 1
    }
}

/// The layer above `layer`: the hash of every pair of neighbours, a last
/// hash without a neighbour being paired with itself.
pub open spec fn next_layer<D: Hasher>(layer: Seq<Seq<u8>>) -> Seq<Seq<u8>> {
    Seq::new(
        ((layer.len() + 1) / 2) as nat,
        |i: int| D::digest(layer[2 * i] + layer[right_of(2 * i, layer.len() as int)]),
    )
}

/// `layer` and all layers above it, up to the one that holds a single hash.
pub open spec fn tree<D: Hasher>(layer: Seq<Seq<u8>>) -> Seq<Seq<u8>>
    decreases layer.len(),
{
    if layer.len() <= 1 {
        layer
    } else {
        layer + tree::<D>(next_layer::<D>(layer))
    }
}

/// The hash of one entry of a batch: of its key followed by its value, or of
/// its key alone where it is a tombstone.
pub open spec fn leaf<D: Hasher>(entry: (Seq<u8>, Operation<Seq<u8>>)) -> Seq<u8> {
    match entry.1 {
        Operation::Update(v) => D::digest(entry.0 + v),
        Operation::Delete => D::digest(entry.0),
    }
}

/// The hash that a batch is chained to: the previous root, which at height 0
/// is the zero hash. Above height 0 a zero hash is no root and is left out.
pub open spec fn first_leaf<D: Hasher>(previous: Seq<u8>, height: int) -> Option<Seq<u8>> {
    if previous != zero_hash::<D>() || height == 0 {
        Some(previous)
    } else {
        None
    }
}

/// The hashes of the entries of `batch`, in its order.
pub open spec fn entry_hashes<D: Hasher>(batch: Seq<(Seq<u8>, Operation<Seq<u8>>)>) -> Seq<
    Seq<u8>,
> {
    Seq::new(batch.len(), |i: int| leaf::<D>(batch[i]))
}

/// `hashes`, with the last one repeated where their number is odd.
pub open spec fn padded(hashes: Seq<Seq<u8>>) -> Seq<Seq<u8>> {
    if hashes.len() % 2 == 1 {
        hashes.push(hashes.last())
    } else {
        hashes
    }
}

/// The lowest layer for `batch`.
pub open spec fn leaves<D: Hasher>(
    first: Option<Seq<u8>>,
    batch: Seq<(Seq<u8>, Operation<Seq<u8>>)>,
) -> Seq<Seq<u8>> {
    padded(
        match first {
            Some(h) => seq![h] + entry_hashes::<D>(batch),
            None => entry_hashes::<D>(batch),
        },
    )
}

/// All layers for `batch` on top of the root `previous`, the new root last.
pub open spec fn layers<D: Hasher>(
    previous: Seq<u8>,
    height: int,
    batch: Seq<(Seq<u8>, Operation<Seq<u8>>)>,
) -> Seq<Seq<u8>> {
    tree::<D>(leaves::<D>(first_leaf::<D>(previous, height), batch))
}

/// Whether every hash of `hashes` has the length `len`.
pub open spec fn all_sized(hashes: Seq<Seq<u8>>, len: nat) -> bool {
    forall|i: int| 0 <= i < hashes.len() ==> (#[trigger] hashes[i]).len() == len
}

/// The root that a payload holds: its last hash.
pub open spec fn root_of_payload<D: Hasher>(payload: Seq<u8>) -> Result<Seq<u8>, Error> {
    if payload.len() > 0 && payload.len() % D::output_len() == 0 {
        Ok(payload.subrange(payload.len() - D::output_len(), payload.len() as int))
    } else {
        Err(Error::StoreError)
    }
}

/// The root that a record holds. A tombstone holds the zero hash.
pub open spec fn root_of_record<D: Hasher>(record: Seq<u8>) -> Result<Seq<u8>, Error> {
    match parse_operation_record(record) {
        Ok(Operation::Update(payload)) => root_of_payload::<D>(payload),
        Ok(Operation::Delete) => Ok(zero_hash::<D>()),
        Err(e) => Err(e),
    }
}

pub proof fn lemma_flatten_len(hashes: Seq<Seq<u8>>, len: nat)
    requires
        all_sized(hashes, len),
    ensures
        flatten(hashes).len() == hashes.len() * len,
    decreases hashes.len(),
{
    if hashes.len() > 0 {
        lemma_flatten_len(hashes.drop_last(), len);
        assert(hashes.len() * len == (hashes.len() - 1) * len + len) by (nonlinear_arith);
    } else {
        assert(hashes.len() * len == 0) by (nonlinear_arith)
            requires
                hashes.len() == 0,
        ;
    }
}

/// The payload made of hashes of the right length holds the last of them as
/// its root.
pub proof fn lemma_root_of_flatten<D: Hasher>(hashes: Seq<Seq<u8>>)
    requires
        hashes.len() > 0,
        all_sized(hashes, D::output_len()),
    ensures
        root_of_payload::<D>(flatten(hashes)) == Ok::<Seq<u8>, Error>(hashes.last()),
{
    let n = D::output_len();
    D::lemma_output(Seq::empty());
    lemma_flatten_len(hashes, n);
    lemma_flatten_len(hashes.drop_last(), n);
    let payload = flatten(hashes);
    assert(hashes.len() * n == (hashes.len() - 1) * n + n) by (nonlinear_arith);
    assert((hashes.len() * n) % n == 0) by (nonlinear_arith)
        requires
            n > 0,
    ;
    assert(payload.subrange(payload.len() - n, payload.len() as int) =~= hashes.last());
}

pub proof fn lemma_next_layer_sized<D: Hasher>(layer: Seq<Seq<u8>>)
    ensures
        all_sized(next_layer::<D>(layer), D::output_len()),
{
    assert forall|i: int| 0 <= i < next_layer::<D>(layer).len() implies (#[trigger] next_layer::<D>(
        layer,
    )[i]).len() == D::output_len() by {
        D::lemma_output(layer[2 * i] + layer[right_of(2 * i, layer.len() as int)]);
    }
}

/// Where the lowest layer is made of hashes of the right length, all layers
/// are; and where it is not empty, neither is the tree.
pub proof fn lemma_tree_sized<D: Hasher>(layer: Seq<Seq<u8>>)
    requires
        all_sized(layer, D::output_len()),
    ensures
        all_sized(tree::<D>(layer), D::output_len()),
        layer.len() > 0 ==> tree::<D>(layer).len() > 0,
    decreases layer.len(),
{
    if layer.len() > 1 {
        lemma_next_layer_sized::<D>(layer);
        lemma_tree_sized::<D>(next_layer::<D>(layer));
    }
}

/// An accumulator that persists, for every height, the layers of the batch
/// committed there.
#[derive(Debug, Clone)]
pub struct AppendOnlyMerkle<D> {
    pub hasher: D,
    pub namespace: String,
    pub height: i64,
}

impl<D: Hasher> AppendOnlyMerkle<D> {
    /// The bytes of the namespace.
    pub open spec fn scope(&self) -> Seq<u8> {
        encode_utf8(self.namespace@)
    }

    /// The contents of the store after `batch` has been folded in, given the
    /// root `previous` before it.
    pub open spec fn stored(
        &self,
        store: Map<Seq<u8>, Seq<u8>>,
        previous: Seq<u8>,
        batch: Seq<(Seq<u8>, Operation<Seq<u8>>)>,
    ) -> Map<Seq<u8>, Seq<u8>> {
        store.insert(
            spec_merkle_key(self.scope(), self.height + 1),
            operation_record(
                Operation::Update(flatten(layers::<D>(previous, self.height as int, batch))),
            ),
        )
    }
}

impl<D: Hasher> Default for AppendOnlyMerkle<D> {
    fn default() -> (r: Self)
        ensures
            r.height == 0,
            r.namespace@ == Seq::<char>::empty(),
    {
        Self { hasher: D::new(), namespace: String::new(), height: 0 }
    }
}

/// A copy of `bytes`.
fn copy_of(bytes: &[u8]) -> (r: Vec<u8>)
    ensures
        r@ == bytes@,
{
    let mut out: Vec<u8> = Vec::new();
    out.extend_from_slice(bytes);
    assert(out@ =~= bytes@);
    out
}

/// The views of a vector of hashes.
pub open spec fn hashes_view(hashes: Seq<Vec<u8>>) -> Seq<Seq<u8>> {
    Seq::new(hashes.len(), |i: int| hashes[i]@)
}

/// Appends to `hashes` the layers above its last `count` hashes.
fn push_layers<D: Hasher>(hasher: &D, hashes: &mut Vec<Vec<u8>>, count: usize)
    requires
        count <= old(hashes)@.len(),
        all_sized(hashes_view(old(hashes)@), D::output_len()),
    ensures
        hashes_view(final(hashes)@) == hashes_view(old(hashes)@).take(old(hashes)@.len() - count)
            + tree::<D>(
            hashes_view(old(hashes)@).skip(old(hashes)@.len() - count),
        ),
        all_sized(hashes_view(final(hashes)@), D::output_len()),
{
    let ghost first = hashes_view(hashes@);
    let ghost goal = first.take(first.len() - count) + tree::<D>(first.skip(first.len() - count));
    let mut num: usize = count;
    let mut offset: usize = hashes.len() - count;
    while num > 1
        invariant
            offset + num == hashes@.len(),
            all_sized(hashes_view(hashes@), D::output_len()),
            goal == hashes_view(hashes@).take(offset as int) + tree::<D>(
                hashes_view(hashes@).skip(offset as int),
            ),
        decreases num,
    {
        let ghost before = hashes_view(hashes@);
        let ghost layer = before.skip(offset as int);
        let total: usize = hashes.len();
        let pairs: usize = num / 2 + num % 2;
        let mut i: usize = 0;
        while i < pairs
            invariant
                i <= pairs,
                pairs == num / 2 + num % 2,
                num > 1,
                offset + num == before.len(),
                before.len() == total,
                hashes@.len() == before.len() + i,
                layer == before.skip(offset as int),
                all_sized(hashes_view(hashes@), D::output_len()),
                hashes_view(hashes@) == before + next_layer::<D>(layer).take(i as int),
            decreases pairs - i,
        {
            assert(2 * i < num);
            let left: usize = 2 * i;
            let right: usize = if left + 1 < num {
                left + 1
            } else {
                num - 1
            };
            let mut buffer: Vec<u8> = Vec::new();
            buffer.extend_from_slice(hashes[offset + left].as_slice());
            buffer.extend_from_slice(hashes[offset + right].as_slice());
            let hash = hasher.hash(buffer.as_slice());
            proof {
                let shown = hashes_view(hashes@);
                assert(shown[offset + left] == before[offset + left]);
                assert(shown[offset + right] == before[offset + right]);
                assert(layer[left as int] == before[offset + left]);
                assert(layer[right as int] == before[offset + right]);
                assert(buffer@ =~= layer[left as int] + layer[right as int]);
                D::lemma_output(buffer@);
                assert(next_layer::<D>(layer)[i as int] == hash@);
                assert(next_layer::<D>(layer).take(i as int + 1) =~= next_layer::<D>(layer).take(
                    i as int,
                ).push(hash@));
            }
            let ghost shown = hashes_view(hashes@);
            hashes.push(hash);
            proof {
                assert(hashes_view(hashes@) =~= shown.push(hash@));
                assert(shown.push(hash@) =~= before + next_layer::<D>(layer).take(i as int + 1));
                assert forall|j: int| 0 <= j < hashes_view(hashes@).len() implies (
                #[trigger] hashes_view(hashes@)[j]).len() == D::output_len() by {
                    if j < shown.len() {
                        assert(hashes_view(hashes@)[j] == shown[j]);
                    }
                }
            }
            i = i + 1;
        }
        proof {
            let above = next_layer::<D>(layer);
            assert(above.take(pairs as int) =~= above);
            let shown = hashes_view(hashes@);
            assert(shown.take(offset + num) =~= before.take(offset as int) + layer);
            assert(shown.skip(offset + num) =~= above);
            assert(tree::<D>(layer) == layer + tree::<D>(above));
            assert(goal =~= shown.take(offset + num) + tree::<D>(shown.skip(offset + num)));
        }
        offset = offset + num;
        num = pairs;
    }
    proof {
        let shown = hashes_view(hashes@);
        assert(shown.take(offset as int) + shown.skip(offset as int) =~= shown);
    }
}

/// The hashes of `hashes`, one after the other.
fn flatten_hashes(hashes: &Vec<Vec<u8>>) -> (r: Vec<u8>)
    ensures
        r@ == flatten(hashes_view(hashes@)),
{
    let mut out: Vec<u8> = Vec::new();
    let mut i: usize = 0;
    let ghost all = hashes_view(hashes@);
    assert(all.take(0) =~= Seq::<Seq<u8>>::empty());
    while i < hashes.len()
        invariant
            i <= hashes@.len(),
            all == hashes_view(hashes@),
            out@ == flatten(all.take(i as int)),
        decreases hashes@.len() - i,
    {
        out.extend_from_slice(hashes[i].as_slice());
        proof {
            let next = all.take(i as int + 1);
            assert(next.drop_last() =~= all.take(i as int));
            assert(next.last() == hashes@[i as int]@);
        }
        i = i + 1;
    }
    assert(all.take(hashes@.len() as int) =~= all);
    out
}

/// The last `len` bytes of `payload`.
fn tail(payload: &Vec<u8>, len: usize) -> (r: Vec<u8>)
    requires
        len <= payload@.len(),
    ensures
        r@ == payload@.subrange(payload@.len() - len, payload@.len() as int),
{
    let start: usize = payload.len() - len;
    let mut out: Vec<u8> = Vec::new();
    let mut i: usize = start;
    while i < payload.len()
        invariant
            start <= i <= payload@.len(),
            out@ == payload@.subrange(start as int, i as int),
        decreases payload@.len() - i,
    {
        out.push(payload[i]);
        assert(out@ =~= payload@.subrange(start as int, i as int + 1));
        i = i + 1;
    }
    out
}

impl<D: Hasher> Merkle for AppendOnlyMerkle<D> {
    type Digest = D;

    open spec fn owns(&self, key: Seq<u8>) -> bool {
        is_merkle_key(self.scope(), key)
    }

    open spec fn follows(&self, height: i64) -> bool {
        self.height == height
    }

    /// A height that cannot grow is refused with `HeightError`, and a
    /// record of the current root that is none with the error of reading it.
    open spec fn refusal(&self, store: Map<Seq<u8>, Seq<u8>>) -> Option<Error> {
        if self.height == i64::MAX {
            Some(Error::HeightError)
        } else {
            match self.spec_root(store) {
                Err(e) => Some(e),
                Ok(_) => None,
            }
        }
    }

    open spec fn uses_store(&self) -> bool {
        true
    }

    proof fn lemma_inserted_frame(
        before: &Self,
        store: Map<Seq<u8>, Seq<u8>>,
        batch: Seq<(Seq<u8>, Operation<Seq<u8>>)>,
        after: &Self,
        written: Map<Seq<u8>, Seq<u8>>,
        key: Seq<u8>,
    ) {
        assert(before.owns(spec_merkle_key(before.scope(), before.height + 1)));
    }

    open spec fn inserted(
        before: &Self,
        store: Map<Seq<u8>, Seq<u8>>,
        batch: Seq<(Seq<u8>, Operation<Seq<u8>>)>,
        after: &Self,
        written: Map<Seq<u8>, Seq<u8>>,
    ) -> bool {
        &&& before.spec_root(store) is Ok
        &&& after.height == before.height + 1
        &&& after.namespace == before.namespace
        &&& written == before.stored(store, before.spec_root(store)->Ok_0, batch)
    }

    /// At height 0 the root is the zero hash, and so it is where the height
    /// has no record. Otherwise it is the last hash of the record.
    open spec fn spec_root(&self, store: Map<Seq<u8>, Seq<u8>>) -> Result<Seq<u8>, Error> {
        if self.height == 0 {
            Ok(zero_hash::<D>())
        } else {
            match lookup(store, spec_merkle_key(self.scope(), self.height as int)) {
                Some(record) => root_of_record::<D>(record),
                None => Ok(zero_hash::<D>()),
            }
        }
    }

    fn new(namespace: &str, height: i64) -> (r: Self)
        ensures
            r.namespace@ == namespace@,
            r.height == height,
    {
        Self { hasher: D::new(), namespace: namespace.to_owned(), height }
    }

    /// Fails with `HeightError` exactly if `target_height` is above the
    /// current height.
    fn rollback(&mut self, target_height: i64) -> (r: Result<(), Error>)
        ensures
            target_height > old(self).height ==> r == Err::<(), Error>(Error::HeightError),
            target_height <= old(self).height ==> r is Ok && final(self).height == target_height
                && final(self).namespace == old(self).namespace,
    {
        if target_height > self.height {
            Err(Error::HeightError)
        } else {
            self.height = target_height;
            Ok(())
        }
    }

    /// Reads the current root, folds `batch` into it and writes the layers
    /// under the next height. Fails with `HeightError` where the height
    /// cannot grow, and otherwise only where the store fails or the record of
    /// the current root is no record.
    fn insert<S: Store>(&mut self, store: &mut S, batch: &[(Vec<u8>, OperationBytes)]) -> (r:
        Result<(), Error>)
        ensures
            old(self).height == i64::MAX ==> r == Err::<(), Error>(Error::HeightError),
    {
        if self.height == i64::MAX {
            return Err(Error::HeightError);
        }
        let previous = self.root(store)?;
        let size: usize = D::output_size();
        let zero = zero_bytes(size);
        let ghost entries = pairs_view(batch@);
        let ghost first = first_leaf::<D>(previous@, self.height as int);
        let ghost start: Seq<Seq<u8>> = match first {
            Some(h) => seq![h],
            None => Seq::empty(),
        };
        proof {
            D::lemma_output(Seq::empty());
            self.lemma_root_sized(store.contents());
        }
        let mut hashes: Vec<Vec<u8>> = Vec::new();
        if !bytes_eq(previous.as_slice(), zero.as_slice()) || self.height == 0 {
            hashes.push(previous);
        }
        assert(hashes_view(hashes@) =~= start + entry_hashes::<D>(entries).take(0));
        let mut i: usize = 0;
        while i < batch.len()
            invariant
                i <= batch@.len(),
                entries == pairs_view(batch@),
                all_sized(hashes_view(hashes@), D::output_len()),
                hashes_view(hashes@) == start + entry_hashes::<D>(entries).take(i as int),
            decreases batch@.len() - i,
        {
            let mut buffer: Vec<u8> = Vec::new();
            buffer.extend_from_slice(batch[i].0.as_slice());
            match &batch[i].1 {
                Operation::Update(v) => {
                    buffer.extend_from_slice(v.as_slice());
                    assert(buffer@ =~= entries[i as int].0 + entries[i as int].1->Update_0);
                },
                Operation::Delete => {
                    assert(buffer@ =~= entries[i as int].0);
                },
            }
            let hash = self.hasher.hash(buffer.as_slice());
            proof {
                D::lemma_output(buffer@);
                assert(hash@ == leaf::<D>(entries[i as int]));
                assert(entry_hashes::<D>(entries).take(i as int + 1) =~= entry_hashes::<D>(
                    entries,
                ).take(i as int).push(hash@));
            }
            let ghost before = hashes_view(hashes@);
            hashes.push(hash);
            proof {
                assert(hashes_view(hashes@) =~= before.push(hash@));
                assert forall|j: int| 0 <= j < hashes_view(hashes@).len() implies (
                #[trigger] hashes_view(hashes@)[j]).len() == D::output_len() by {
                    if j < before.len() {
                        assert(hashes_view(hashes@)[j] == before[j]);
                    }
                }
            }
            i = i + 1;
        }
        assert(entry_hashes::<D>(entries).take(batch@.len() as int) =~= entry_hashes::<D>(entries));
        if hashes.len() % 2 != 0 {
            let last = copy_of(hashes[hashes.len() - 1].as_slice());
            let ghost before = hashes_view(hashes@);
            hashes.push(last);
            assert(hashes_view(hashes@) =~= before.push(before.last()));
        }
        assert(hashes_view(hashes@) == leaves::<D>(first, entries));
        let count: usize = hashes.len();
        push_layers::<D>(&self.hasher, &mut hashes, count);
        proof {
            let lowest = leaves::<D>(first, entries);
            assert(lowest.take(0) =~= Seq::<Seq<u8>>::empty());
            assert(lowest.skip(0) =~= lowest);
            assert(hashes_view(hashes@) =~= layers::<D>(
                previous@,
                self.height as int,
                entries,
            ));
        }
        let payload = flatten_hashes(&hashes);
        let record = encode_operation_record(&Operation::Update(payload));
        let key = merkle_key(self.namespace.as_str(), self.height + 1);
        match store.insert(key, record) {
            Ok(()) => {
                self.height = self.height + 1;
                proof {
                    let written = spec_merkle_key(self.scope(), self.height as int);
                    assert(old(self).owns(written));
                }
                Ok(())
            },
            Err(e) => Err(e),
        }
    }

    /// The zero hash at height 0 and where the height has no record or a
    /// tombstone; otherwise the last hash of the record. A record that holds
    /// no whole number of hashes, or none, is refused with `StoreError`; one
    /// that is no record with the reason why.
    fn root<S: Store>(&self, store: &S) -> (r: Result<Vec<u8>, Error>)
        ensures
            self.height == 0 ==> r is Ok,
    {
        let size: usize = D::output_size();
        proof {
            D::lemma_output(Seq::empty());
        }
        if self.height == 0 {
            return Ok(zero_bytes(size));
        }
        let key = merkle_key(self.namespace.as_str(), self.height);
        match store.get(key.as_slice())? {
            Some(bytes) => {
                let record = decode_operation_record(bytes.as_ref().as_slice())?;
                match record {
                    Operation::Update(payload) => {
                        if payload.len() > 0 && payload.len() % size == 0 {
                            proof {
                                if payload@.len() < size {
                                    vstd::arithmetic::div_mod::lemma_small_mod(
                                        payload@.len(),
                                        size as nat,
                                    );
                                }
                            }
                            Ok(tail(&payload, size))
                        } else {
                            Err(Error::StoreError)
                        }
                    },
                    Operation::Delete => Ok(zero_bytes(size)),
                }
            },
            None => Ok(zero_bytes(size)),
        }
    }
}

impl<D: Hasher> AppendOnlyMerkle<D> {
    /// A root that can be read has the length of a digest.
    pub proof fn lemma_root_sized(&self, store: Map<Seq<u8>, Seq<u8>>)
        ensures
            self.spec_root(store) matches Ok(h) ==> h.len() == D::output_len(),
    {
        D::lemma_output(Seq::empty());
        if self.height != 0 {
            match lookup(store, spec_merkle_key(self.scope(), self.height as int)) {
                Some(record) => match parse_operation_record(record) {
                    Ok(Operation::Update(payload)) => {
                        if payload.len() < D::output_len() {
                            vstd::arithmetic::div_mod::lemma_small_mod(
                                payload.len(),
                                D::output_len(),
                            );
                        }
                    },
                    _ => {},
                },
                None => {},
            }
        }
    }

    /// After a batch has been folded in, the root is the last hash of its
    /// layers: a function of the previous root, the height and the batch
    /// alone.
    pub proof fn lemma_root_after_insert(
        &self,
        after: &Self,
        store: Map<Seq<u8>, Seq<u8>>,
        previous: Seq<u8>,
        batch: Seq<(Seq<u8>, Operation<Seq<u8>>)>,
    )
        requires
            self.spec_root(store) == Ok::<Seq<u8>, Error>(previous),
            0 <= self.height < i64::MAX,
            after.height == self.height + 1,
            after.namespace == self.namespace,
            layers::<D>(previous, self.height as int, batch).len() > 0,
        ensures
            after.spec_root(self.stored(store, previous, batch)) == Ok::<Seq<u8>, Error>(
                layers::<D>(previous, self.height as int, batch).last(),
            ),
    {
        self.lemma_root_sized(store);
        let first = first_leaf::<D>(previous, self.height as int);
        let lowest = leaves::<D>(first, batch);
        let hashed = entry_hashes::<D>(batch);
        assert forall|j: int| 0 <= j < hashed.len() implies (#[trigger] hashed[j]).len()
            == D::output_len() by {
            match batch[j].1 {
                Operation::Update(v) => D::lemma_output(batch[j].0 + v),
                Operation::Delete => D::lemma_output(batch[j].0),
            }
        }
        let unpadded = match first {
            Some(h) => seq![h] + hashed,
            None => hashed,
        };
        assert(all_sized(unpadded, D::output_len())) by {
            assert forall|i: int| 0 <= i < unpadded.len() implies (#[trigger] unpadded[i]).len()
                == D::output_len() by {
                if first is Some && i > 0 {
                    assert(unpadded[i] == hashed[i - 1]);
                }
            }
        }
        assert(all_sized(lowest, D::output_len())) by {
            assert forall|i: int| 0 <= i < lowest.len() implies (#[trigger] lowest[i]).len()
                == D::output_len() by {
                if i < unpadded.len() {
                    assert(lowest[i] == unpadded[i]);
                } else {
                    assert(lowest[i] == unpadded.last());
                }
            }
        }
        lemma_tree_sized::<D>(lowest);
        let all = layers::<D>(previous, self.height as int, batch);
        lemma_root_of_flatten::<D>(all);
        crate::snapshot::value::lemma_operation_record_round_trip(Operation::Update(flatten(all)));
    }
}

} // verus!
