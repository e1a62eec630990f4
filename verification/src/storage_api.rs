//! The upload/download/delete orchestrator.
//!
//! The engine owns the node registry, an in-memory image of each node's
//! chunk store, the file index, and the key vault. Uploading encrypts a
//! byte stream through the cipher pipeline, cuts the blob into placement
//! chunks, places each on the first node with room, and records metadata
//! only after every chunk is stored. Downloading fetches the chunks in
//! order, checks each content hash, and opens the reassembled blob.
//! Deleting requires the owner, frees every chunk, and then drops the
//! metadata.

use vstd::prelude::*;
use crate::StorageError;
use crate::bytes::bytes_eq;
use crate::crypto::sha256;
use crate::crypto::sha256_of;
use crate::p2p::Node;
use crate::p2p::NodeV;
use crate::p2p::nodes_wf;
use crate::pipeline::MAX_CHUNK_SIZE;
use crate::pipeline::chunks_of;
use crate::pipeline::open_blob;
use crate::pipeline::sealed_data_blob;
use crate::pipeline::split_into_chunks;
use crate::pipeline::encrypt_data_chunked;
use crate::textform::dec_str;
use crate::textform::lemma_dec_str_injective;
use crate::textform::str_equal;
use crate::textform::u64_to_dec;
use crate::vault::KeyVault;
use crate::vault::VaultRecV;
use crate::vault::kek_of;
use crate::vault::key_data_wf;
use crate::vault::unseal_key;
use crate::vault::vault_find;
use crate::bytes::append_bytes;
use crate::bytes::copy_range;
use vstd::string::StringSliceAdditionalSpecFns;

verus! {

/// One chunk as stored on a node.
pub struct StoredChunk {
    pub chunk_id: String,
    pub data: Vec<u8>,
}

/// The mathematical content of a stored chunk.
#[verifier::ext_equal]
pub struct StoredChunkV {
    pub chunk_id: Seq<char>,
    pub data: Seq<u8>,
}

impl View for StoredChunk {
    type V = StoredChunkV;

    open spec fn view(&self) -> StoredChunkV {
        StoredChunkV { chunk_id: self.chunk_id@, data: self.data@ }
    }
}

impl DeepView for StoredChunk {
    type V = StoredChunkV;

    open spec fn deep_view(&self) -> StoredChunkV {
        self@
    }
}

/// The on-disk state modelled for one node.
pub struct NodeStore {
    pub node_id: String,
    pub chunks: Vec<StoredChunk>,
}

/// The mathematical content of one node's store.
#[verifier::ext_equal]
pub struct NodeStoreV {
    pub node_id: Seq<char>,
    pub chunks: Seq<StoredChunkV>,
}

impl View for NodeStore {
    type V = NodeStoreV;

    open spec fn view(&self) -> NodeStoreV {
        NodeStoreV { node_id: self.node_id@, chunks: self.chunks.deep_view() }
    }
}

impl DeepView for NodeStore {
    type V = NodeStoreV;

    open spec fn deep_view(&self) -> NodeStoreV {
        self@
    }
}

/// What one stored chunk contributes to a node's used space.
pub open spec fn store_used(chunks: Seq<StoredChunkV>) -> int
    decreases chunks.len(),
{
    if chunks.len() == 0 {
        0
    } else {
        chunks[0].data.len() + store_used(chunks.drop_first())
    }
}

/// The position of the first chunk with the given identifier, if any.
pub open spec fn chunk_index_of(chunks: Seq<StoredChunkV>, id: Seq<char>) -> Option<int>
    decreases chunks.len(),
{
    if chunks.len() == 0 {
        None
    } else if chunks[0].chunk_id == id {
        Some(0)
    } else {
        match chunk_index_of(chunks.drop_first(), id) {
            None => None,
            Some(i) => Some(i + 1),
        }
    }
}

/// The bytes stored under a chunk identifier, if any.
pub open spec fn chunk_find(chunks: Seq<StoredChunkV>, id: Seq<char>) -> Option<Seq<u8>> {
    match chunk_index_of(chunks, id) {
        None => None,
        Some(i) => Some(chunks[i].data),
    }
}

/// Storing a chunk: overwrite the entry with its identifier, or append.
pub open spec fn chunk_put(chunks: Seq<StoredChunkV>, id: Seq<char>, data: Seq<u8>) -> Seq<
    StoredChunkV,
> {
    match chunk_index_of(chunks, id) {
        None => chunks.push(StoredChunkV { chunk_id: id, data }),
        Some(i) => chunks.update(i, StoredChunkV { chunk_id: id, data }),
    }
}

/// Deleting a chunk: remove the entry with its identifier, if present.
pub open spec fn chunk_remove(chunks: Seq<StoredChunkV>, id: Seq<char>) -> Seq<StoredChunkV> {
    match chunk_index_of(chunks, id) {
        None => chunks,
        Some(i) => chunks.remove(i),
    }
}

pub proof fn lemma_chunk_index_in_range(chunks: Seq<StoredChunkV>, id: Seq<char>)
    ensures
        chunk_index_of(chunks, id) matches Some(i) ==> 0 <= i < chunks.len() && chunks[i].chunk_id
            == id,
    decreases chunks.len(),
{
    if chunks.len() > 0 {
        lemma_chunk_index_in_range(chunks.drop_first(), id);
        if let Some(i) = chunk_index_of(chunks, id) {
            if i > 0 {
                assert(chunks.drop_first()[i - 1] == chunks[i]);
            }
        }
    }
}

/// Used space after an update or removal, in terms of what was replaced.
pub proof fn lemma_store_used_update(chunks: Seq<StoredChunkV>, i: int, c: StoredChunkV)
    requires
        0 <= i < chunks.len(),
    ensures
        store_used(chunks.update(i, c)) == store_used(chunks) - chunks[i].data.len()
            + c.data.len(),
    decreases chunks.len(),
{
    if i == 0 {
        assert(chunks.update(0, c)[0] == c);
        assert(chunks.update(0, c).drop_first() =~= chunks.drop_first());
    } else {
        assert(chunks.update(i, c)[0] == chunks[0]);
        assert(chunks.update(i, c).drop_first() =~= chunks.drop_first().update(i - 1, c));
        lemma_store_used_update(chunks.drop_first(), i - 1, c);
        assert(chunks.drop_first()[i - 1] == chunks[i]);
    }
}

pub proof fn lemma_store_used_push(chunks: Seq<StoredChunkV>, c: StoredChunkV)
    ensures
        store_used(chunks.push(c)) == store_used(chunks) + c.data.len(),
    decreases chunks.len(),
{
    if chunks.len() == 0 {
        assert(chunks.push(c)[0] == c);
        assert(chunks.push(c).drop_first() =~= Seq::<StoredChunkV>::empty());
        assert(store_used(Seq::<StoredChunkV>::empty()) == 0);
    } else {
        assert(chunks.push(c)[0] == chunks[0]);
        assert(chunks.push(c).drop_first() =~= chunks.drop_first().push(c));
        lemma_store_used_push(chunks.drop_first(), c);
    }
}

pub proof fn lemma_store_used_remove(chunks: Seq<StoredChunkV>, i: int)
    requires
        0 <= i < chunks.len(),
    ensures
        store_used(chunks.remove(i)) == store_used(chunks) - chunks[i].data.len(),
    decreases chunks.len(),
{
    if i == 0 {
        assert(chunks.remove(0) =~= chunks.drop_first());
    } else {
        assert(chunks.remove(i)[0] == chunks[0]);
        assert(chunks.remove(i).drop_first() =~= chunks.drop_first().remove(i - 1));
        lemma_store_used_remove(chunks.drop_first(), i - 1);
        assert(chunks.drop_first()[i - 1] == chunks[i]);
    }
}

pub proof fn lemma_store_used_nonneg(chunks: Seq<StoredChunkV>)
    ensures
        store_used(chunks) >= 0,
    decreases chunks.len(),
{
    if chunks.len() > 0 {
        lemma_store_used_nonneg(chunks.drop_first());
    }
}

/// Used space splits over a prefix and the rest.
pub proof fn lemma_store_used_split(chunks: Seq<StoredChunkV>, i: int)
    requires
        0 <= i <= chunks.len(),
    ensures
        store_used(chunks) == store_used(chunks.take(i)) + store_used(chunks.skip(i)),
    decreases i,
{
    if i == 0 {
        assert(chunks.take(0) =~= Seq::<StoredChunkV>::empty());
        assert(chunks.skip(0) =~= chunks);
    } else {
        assert(chunks.take(i)[0] == chunks[0]);
        assert(chunks.take(i).drop_first() =~= chunks.drop_first().take(i - 1));
        assert(chunks.skip(i) =~= chunks.drop_first().skip(i - 1));
        lemma_store_used_split(chunks.drop_first(), i - 1);
    }
}

/// The position of the first node with the given identifier, if any.
pub open spec fn node_index_of(nodes: Seq<NodeV>, id: Seq<char>) -> Option<int>
    decreases nodes.len(),
{
    if nodes.len() == 0 {
        None
    } else if nodes[0].id == id {
        Some(0)
    } else {
        match node_index_of(nodes.drop_first(), id) {
            None => None,
            Some(i) => Some(i + 1),
        }
    }
}

/// First-fit placement: the first node, in registration order, whose
/// recomputed used space plus the required bytes stays within its
/// advertised free space.
pub open spec fn first_fit(nodes: Seq<NodeV>, stores: Seq<NodeStoreV>, required: u64) -> Option<
    int,
>
    decreases nodes.len(),
{
    if nodes.len() == 0 || stores.len() == 0 {
        None
    } else if store_used(stores[0].chunks) + required <= nodes[0].available_space {
        Some(0)
    } else {
        match first_fit(nodes.drop_first(), stores.drop_first(), required) {
            None => None,
            Some(i) => Some(i + 1),
        }
    }
}

pub proof fn lemma_first_fit_in_range(nodes: Seq<NodeV>, stores: Seq<NodeStoreV>, required: u64)
    requires
        nodes.len() == stores.len(),
    ensures
        first_fit(nodes, stores, required) matches Some(i) ==> 0 <= i < nodes.len() && store_used(
            stores[i].chunks,
        ) + required <= nodes[i].available_space,
    decreases nodes.len(),
{
    if nodes.len() > 0 {
        lemma_first_fit_in_range(nodes.drop_first(), stores.drop_first(), required);
        if let Some(i) = first_fit(nodes, stores, required) {
            if i > 0 {
                assert(nodes.drop_first()[i - 1] == nodes[i]);
                assert(stores.drop_first()[i - 1] == stores[i]);
            }
        }
    }
}

/// Information recorded per placed chunk.
pub struct ChunkInfo {
    pub chunk_id: String,
    pub node_id: String,
    pub size: u64,
    pub hash: Vec<u8>,
}

/// The mathematical content of a `ChunkInfo`.
#[verifier::ext_equal]
pub struct ChunkInfoV {
    pub chunk_id: Seq<char>,
    pub node_id: Seq<char>,
    pub size: u64,
    pub hash: Seq<u8>,
}

impl View for ChunkInfo {
    type V = ChunkInfoV;

    open spec fn view(&self) -> ChunkInfoV {
        ChunkInfoV {
            chunk_id: self.chunk_id@,
            node_id: self.node_id@,
            size: self.size,
            hash: self.hash@,
        }
    }
}

impl DeepView for ChunkInfo {
    type V = ChunkInfoV;

    open spec fn deep_view(&self) -> ChunkInfoV {
        self@
    }
}

impl Clone for ChunkInfo {
    fn clone(&self) -> (r: ChunkInfo)
        ensures
            r@ == self@,
    {
        let hash = copy_range(&self.hash, 0, self.hash.len());
        proof {
            assert(hash@ =~= self.hash@);
        }
        ChunkInfo {
            chunk_id: self.chunk_id.clone(),
            node_id: self.node_id.clone(),
            size: self.size,
            hash,
        }
    }
}

/// A stored file's record: owner, size, and its chunks in order.
pub struct FileMetadata {
    pub file_id: String,
    pub file_name: String,
    pub node_id: String,
    pub file_size: u64,
    pub chunks: Vec<ChunkInfo>,
    pub timestamp: u64,
    pub owner: String,
}

/// The mathematical content of a `FileMetadata`.
#[verifier::ext_equal]
pub struct FileMetadataV {
    pub file_id: Seq<char>,
    pub file_name: Seq<char>,
    pub node_id: Seq<char>,
    pub file_size: u64,
    pub chunks: Seq<ChunkInfoV>,
    pub timestamp: u64,
    pub owner: Seq<char>,
}

impl View for FileMetadata {
    type V = FileMetadataV;

    open spec fn view(&self) -> FileMetadataV {
        FileMetadataV {
            file_id: self.file_id@,
            file_name: self.file_name@,
            node_id: self.node_id@,
            file_size: self.file_size,
            chunks: self.chunks.deep_view(),
            timestamp: self.timestamp,
            owner: self.owner@,
        }
    }
}

impl DeepView for FileMetadata {
    type V = FileMetadataV;

    open spec fn deep_view(&self) -> FileMetadataV {
        self@
    }
}

impl Clone for FileMetadata {
    fn clone(&self) -> (r: FileMetadata)
        ensures
            r@ == self@,
    {
        let mut chunks: Vec<ChunkInfo> = Vec::new();
        let mut i: usize = 0;
        proof {
            assert(chunks.deep_view() =~~= self.chunks.deep_view().take(0));
        }
        while i < self.chunks.len()
            invariant
                i <= self.chunks@.len(),
                chunks.deep_view() == self.chunks.deep_view().take(i as int),
            decreases self.chunks@.len() - i,
        {
            let ghost before = chunks.deep_view();
            chunks.push(self.chunks[i].clone());
            proof {
                assert(chunks.deep_view() =~~= before.push(self.chunks@[i as int]@));
                assert(before.push(self.chunks@[i as int]@) =~= self.chunks.deep_view().take(
                    i as int + 1,
                ));
            }
            i = i + 1;
        }
        proof {
            assert(self.chunks.deep_view().take(self.chunks@.len() as int)
                =~= self.chunks.deep_view());
        }
        FileMetadata {
            file_id: self.file_id.clone(),
            file_name: self.file_name.clone(),
            node_id: self.node_id.clone(),
            file_size: self.file_size,
            chunks,
            timestamp: self.timestamp,
            owner: self.owner.clone(),
        }
    }
}

/// The position of the first file record with the given identifier.
pub open spec fn file_index_of(files: Seq<FileMetadataV>, id: Seq<char>) -> Option<int>
    decreases files.len(),
{
    if files.len() == 0 {
        None
    } else if files[0].file_id == id {
        Some(0)
    } else {
        match file_index_of(files.drop_first(), id) {
            None => None,
            Some(i) => Some(i + 1),
        }
    }
}

} // verus!

verus! {

/// The engine's whole mathematical state.
#[verifier::ext_equal]
pub struct StorageApiV {
    pub nodes: Seq<NodeV>,
    pub stores: Seq<NodeStoreV>,
    pub files: Seq<FileMetadataV>,
    pub vault: Seq<VaultRecV>,
    pub next_id: u64,
    pub inner_chunk_size: usize,
    pub placement_chunk_size: usize,
}

/// A counter-issued identifier below the bound.
pub open spec fn issued_id(id: Seq<char>, bound: u64) -> bool {
    exists|k: nat| k < bound && id == dec_str(k)
}

/// The registry/store half of the engine's invariant: stores parallel
/// the registry and each node's advertised free space is exactly its
/// capacity minus the bytes its store image holds.
pub open spec fn registry_wf(nodes: Seq<NodeV>, stores: Seq<NodeStoreV>) -> bool {
    &&& nodes_wf(nodes)
    &&& stores.len() == nodes.len()
    &&& forall|i: int| 0 <= i < nodes.len() ==> #[trigger] stores[i].node_id == nodes[i].id
    &&& forall|i: int|
        0 <= i < nodes.len() ==> store_used(#[trigger] stores[i].chunks) <= nodes[i].total_space
    &&& forall|i: int|
        0 <= i < nodes.len() ==> #[trigger] nodes[i].available_space == nodes[i].total_space
            - store_used(stores[i].chunks)
}

/// The engine's invariant. Stores parallel the registry; each node's
/// advertised free space is exactly its capacity minus the bytes its
/// store holds; file and vault identifiers come from the counter and
/// file identifiers are distinct.
pub open spec fn api_wf(v: StorageApiV) -> bool {
    &&& registry_wf(v.nodes, v.stores)
    &&& crate::vault::vault_wf(v.vault)
    &&& forall|i: int, j: int|
        0 <= i < j < v.files.len() ==> v.files[i].file_id != v.files[j].file_id
    &&& forall|i: int| 0 <= i < v.files.len() ==> issued_id(#[trigger] v.files[i].file_id, v.next_id)
    &&& forall|i: int| 0 <= i < v.vault.len() ==> issued_id(#[trigger] v.vault[i].file_id, v.next_id)
    &&& 1 <= v.inner_chunk_size <= MAX_CHUNK_SIZE
    &&& 1 <= v.placement_chunk_size
}

/// The storage engine.
pub struct StorageAPI {
    nodes: Vec<Node>,
    stores: Vec<NodeStore>,
    file_index: Vec<FileMetadata>,
    vault: KeyVault,
    next_id: u64,
    inner_chunk_size: usize,
    placement_chunk_size: usize,
}

impl View for StorageAPI {
    type V = StorageApiV;

    closed spec fn view(&self) -> StorageApiV {
        StorageApiV {
            nodes: self.nodes.deep_view(),
            stores: self.stores.deep_view(),
            files: self.file_index.deep_view(),
            vault: self.vault@,
            next_id: self.next_id,
            inner_chunk_size: self.inner_chunk_size,
            placement_chunk_size: self.placement_chunk_size,
        }
    }
}

impl StorageAPI {
    pub open spec fn wf(&self) -> bool {
        api_wf(self@)
    }

    /// An empty engine with the given cipher and placement chunk sizes.
    pub fn new(inner_chunk_size: usize, placement_chunk_size: usize) -> (r: StorageAPI)
        requires
            1 <= inner_chunk_size <= MAX_CHUNK_SIZE,
            1 <= placement_chunk_size,
        ensures
            r.wf(),
            r@.nodes == Seq::<NodeV>::empty(),
            r@.stores == Seq::<NodeStoreV>::empty(),
            r@.files == Seq::<FileMetadataV>::empty(),
            r@.vault == Seq::<VaultRecV>::empty(),
            r@.next_id == 0,
            r@.inner_chunk_size == inner_chunk_size,
            r@.placement_chunk_size == placement_chunk_size,
    {
        let r = StorageAPI {
            nodes: Vec::new(),
            stores: Vec::new(),
            file_index: Vec::new(),
            vault: KeyVault::new(),
            next_id: 0,
            inner_chunk_size,
            placement_chunk_size,
        };
        proof {
            assert(r@.nodes =~~= Seq::<NodeV>::empty());
            assert(r@.stores =~~= Seq::<NodeStoreV>::empty());
            assert(r@.files =~~= Seq::<FileMetadataV>::empty());
        }
        r
    }

    /// Registers a storage node, with an empty store image. Re-adding an
    /// existing identifier is a no-op.
    pub fn register_node(&mut self, node: Node)
        requires
            old(self).wf(),
            node.available_space == node.total_space,
        ensures
            final(self).wf(),
            node_index_of(old(self)@.nodes, node.id@) is Some ==> final(self)@ == old(self)@,
            node_index_of(old(self)@.nodes, node.id@) is None ==> final(self)@ == (StorageApiV {
                nodes: old(self)@.nodes.push(node@),
                stores: old(self)@.stores.push(
                    NodeStoreV { node_id: node.id@, chunks: Seq::empty() },
                ),
                ..old(self)@
            }),
    {
        let ghost pre = self@;
        if let Some(_) = self.node_index(node.id.as_str()) {
            return ;
        }
        let ghost nv = node@;
        let store = NodeStore { node_id: node.id.clone(), chunks: Vec::new() };
        self.nodes.push(node);
        self.stores.push(store);
        proof {
            assert(self@.nodes =~~= pre.nodes.push(nv));
            assert(self@.stores =~~= pre.stores.push(
                NodeStoreV { node_id: nv.id, chunks: Seq::empty() },
            ));
            assert(self@ == (StorageApiV {
                nodes: pre.nodes.push(nv),
                stores: pre.stores.push(NodeStoreV { node_id: nv.id, chunks: Seq::empty() }),
                ..pre
            }));
            lemma_node_index_none_absent(pre.nodes, nv.id);
            assert forall|a: int, b: int| 0 <= a < b < self@.nodes.len() implies self@.nodes[a].id
                != self@.nodes[b].id by {
                if b < pre.nodes.len() {
                    assert(pre.nodes[a].id != pre.nodes[b].id);
                }
            }
            assert(store_used(Seq::<StoredChunkV>::empty()) == 0);
        }
    }

    /// The position of the node with the given identifier, if any.
    fn node_index(&self, node_id: &str) -> (r: Option<usize>)
        ensures
            match r {
                Some(i) => node_index_of(self@.nodes, node_id@) == Some(i as int) && i
                    < self@.nodes.len(),
                None => node_index_of(self@.nodes, node_id@) is None,
            },
    {
        let ghost s = self@.nodes;
        proof {
            assert(s.skip(0) =~= s);
        }
        let mut i: usize = 0;
        while i < self.nodes.len()
            invariant
                i <= s.len(),
                s == self@.nodes,
                s.len() == self.nodes@.len(),
                match node_index_of(s.skip(i as int), node_id@) {
                    None => node_index_of(s, node_id@) is None,
                    Some(k) => node_index_of(s, node_id@) == Some(k + i),
                },
            decreases s.len() - i,
        {
            proof {
                assert(s.skip(i as int)[0] == s[i as int]);
                assert(s[i as int] == self.nodes@[i as int]@);
                assert(s.skip(i as int).drop_first() =~= s.skip(i as int + 1));
            }
            if str_equal(self.nodes[i].id.as_str(), node_id) {
                return Some(i);
            }
            i = i + 1;
        }
        proof {
            assert(s.skip(s.len() as int) =~= Seq::<NodeV>::empty());
        }
        None
    }

    /// The registered nodes, in registration order.
    pub fn list_nodes(&self) -> (r: Vec<Node>)
        ensures
            r.deep_view() == self@.nodes,
    {
        let mut out: Vec<Node> = Vec::new();
        let mut i: usize = 0;
        proof {
            assert(out.deep_view() =~~= self@.nodes.take(0));
        }
        while i < self.nodes.len()
            invariant
                i <= self.nodes@.len(),
                self@.nodes.len() == self.nodes@.len(),
                out.deep_view() == self@.nodes.take(i as int),
            decreases self.nodes@.len() - i,
        {
            let ghost before = out.deep_view();
            out.push(self.nodes[i].clone());
            proof {
                assert(out.deep_view() =~~= before.push(self.nodes@[i as int]@));
                assert(before.push(self@.nodes[i as int]) =~= self@.nodes.take(i as int + 1));
            }
            i = i + 1;
        }
        proof {
            assert(self@.nodes.take(self@.nodes.len() as int) =~= self@.nodes);
        }
        out
    }

    /// The stored files' metadata, in upload order.
    pub fn list_files(&self) -> (r: Vec<FileMetadata>)
        ensures
            r.deep_view() == self@.files,
    {
        let mut out: Vec<FileMetadata> = Vec::new();
        let mut i: usize = 0;
        proof {
            assert(out.deep_view() =~~= self@.files.take(0));
        }
        while i < self.file_index.len()
            invariant
                i <= self.file_index@.len(),
                self@.files.len() == self.file_index@.len(),
                out.deep_view() == self@.files.take(i as int),
            decreases self.file_index@.len() - i,
        {
            let ghost before = out.deep_view();
            out.push(self.file_index[i].clone());
            proof {
                assert(out.deep_view() =~~= before.push(self.file_index@[i as int]@));
                assert(before.push(self@.files[i as int]) =~= self@.files.take(i as int + 1));
            }
            i = i + 1;
        }
        proof {
            assert(self@.files.take(self@.files.len() as int) =~= self@.files);
        }
        out
    }
}

/// When `node_index_of` reports nothing, no position holds the
/// identifier.
pub proof fn lemma_node_index_none_absent(nodes: Seq<NodeV>, id: Seq<char>)
    requires
        node_index_of(nodes, id) is None,
    ensures
        forall|i: int| 0 <= i < nodes.len() ==> nodes[i].id != id,
    decreases nodes.len(),
{
    if nodes.len() > 0 {
        lemma_node_index_none_absent(nodes.drop_first(), id);
        assert forall|i: int| 0 <= i < nodes.len() implies nodes[i].id != id by {
            if i > 0 {
                assert(nodes.drop_first()[i - 1] == nodes[i]);
            }
        }
    }
}

} // verus!

verus! {

/// A single chunk's bytes never exceed the store's total.
pub proof fn lemma_store_used_elem(chunks: Seq<StoredChunkV>, i: int)
    requires
        0 <= i < chunks.len(),
    ensures
        chunks[i].data.len() <= store_used(chunks),
    decreases chunks.len(),
{
    lemma_store_used_nonneg(chunks.drop_first());
    if i > 0 {
        lemma_store_used_elem(chunks.drop_first(), i - 1);
        assert(chunks.drop_first()[i - 1] == chunks[i]);
        assert(chunks[0].data.len() >= 0);
    }
}

/// The position of the first chunk with the given identifier.
fn chunk_index(chunks: &Vec<StoredChunk>, chunk_id: &str) -> (r: Option<usize>)
    ensures
        match r {
            Some(i) => chunk_index_of(chunks.deep_view(), chunk_id@) == Some(i as int) && i
                < chunks@.len(),
            None => chunk_index_of(chunks.deep_view(), chunk_id@) is None,
        },
{
    let ghost s = chunks.deep_view();
    proof {
        assert(s.skip(0) =~= s);
    }
    let mut i: usize = 0;
    while i < chunks.len()
        invariant
            i <= s.len(),
            s == chunks.deep_view(),
            s.len() == chunks@.len(),
            match chunk_index_of(s.skip(i as int), chunk_id@) {
                None => chunk_index_of(s, chunk_id@) is None,
                Some(k) => chunk_index_of(s, chunk_id@) == Some(k + i),
            },
        decreases s.len() - i,
    {
        proof {
            assert(s.skip(i as int)[0] == s[i as int]);
            assert(s[i as int] == chunks@[i as int]@);
            assert(s.skip(i as int).drop_first() =~= s.skip(i as int + 1));
        }
        if str_equal(chunks[i].chunk_id.as_str(), chunk_id) {
            return Some(i);
        }
        i = i + 1;
    }
    proof {
        assert(s.skip(s.len() as int) =~= Seq::<StoredChunkV>::empty());
    }
    None
}

/// Sums the bytes a store holds.
fn used_bytes(chunks: &Vec<StoredChunk>) -> (r: u64)
    requires
        store_used(chunks.deep_view()) <= u64::MAX,
    ensures
        r == store_used(chunks.deep_view()),
{
    let ghost s = chunks.deep_view();
    let mut acc: u64 = 0;
    let mut i: usize = 0;
    proof {
        assert(s.take(0) =~= Seq::<StoredChunkV>::empty());
    }
    while i < chunks.len()
        invariant
            i <= s.len(),
            s == chunks.deep_view(),
            s.len() == chunks@.len(),
            store_used(s) <= u64::MAX,
            acc == store_used(s.take(i as int)),
        decreases s.len() - i,
    {
        proof {
            lemma_store_used_split(s, i as int + 1);
            lemma_store_used_split(s.take(i as int + 1), i as int);
            assert(s.take(i as int + 1).take(i as int) =~= s.take(i as int));
            assert(s.take(i as int + 1).skip(i as int) =~= seq![s[i as int]]);
            assert(store_used(seq![s[i as int]]) == s[i as int].data.len() + store_used(
                seq![s[i as int]].drop_first(),
            ));
            assert(seq![s[i as int]].drop_first() =~= Seq::<StoredChunkV>::empty());
            lemma_store_used_nonneg(s.skip(i as int + 1));
            assert(s[i as int] == chunks@[i as int]@);
        }
        acc = acc + chunks[i].data.len() as u64;
        i = i + 1;
    }
    proof {
        assert(s.take(s.len() as int) =~= s);
    }
    acc
}

impl StorageAPI {
    /// Selects the first node, in registration order, whose recomputed
    /// used space plus the required bytes stays within its advertised
    /// free space. Used space is recomputed from the store image at
    /// selection time, not taken from a cached counter.
    pub fn select_node(&self, required_bytes: u64) -> (r: Result<usize, StorageError>)
        requires
            registry_wf(self@.nodes, self@.stores),
        ensures
            match first_fit(self@.nodes, self@.stores, required_bytes) {
                Some(i) => r matches Ok(u) && u as int == i,
                None => r == Err::<usize, StorageError>(StorageError::NoSuitableNode),
            },
    {
        let ghost ns = self@.nodes;
        let ghost sts = self@.stores;
        proof {
            assert(ns.skip(0) =~= ns);
            assert(sts.skip(0) =~= sts);
        }
        let mut i: usize = 0;
        while i < self.nodes.len()
            invariant
                registry_wf(ns, sts),
                i <= ns.len(),
                ns == self@.nodes,
                sts == self@.stores,
                ns.len() == self.nodes@.len(),
                sts.len() == ns.len(),
                sts.len() == self.stores@.len(),
                match first_fit(ns.skip(i as int), sts.skip(i as int), required_bytes) {
                    None => first_fit(ns, sts, required_bytes) is None,
                    Some(k) => first_fit(ns, sts, required_bytes) == Some(k + i),
                },
            decreases ns.len() - i,
        {
            proof {
                assert(ns.skip(i as int)[0] == ns[i as int]);
                assert(sts.skip(i as int)[0] == sts[i as int]);
                assert(ns[i as int] == self.nodes@[i as int]@);
                assert(sts[i as int] == self.stores@[i as int]@);
                assert(ns.skip(i as int).drop_first() =~= ns.skip(i as int + 1));
                assert(sts.skip(i as int).drop_first() =~= sts.skip(i as int + 1));
                lemma_store_used_nonneg(sts[i as int].chunks);
            }
            let used = used_bytes(&self.stores[i].chunks);
            if used as u128 + required_bytes as u128 <= self.nodes[i].available_space as u128 {
                return Ok(i);
            }
            i = i + 1;
        }
        proof {
            assert(ns.skip(ns.len() as int) =~= Seq::<NodeV>::empty());
            assert(first_fit(ns.skip(ns.len() as int), sts.skip(ns.len() as int), required_bytes)
                is None);
        }
        Err(StorageError::NoSuitableNode)
    }

    /// Writes a chunk's bytes onto a node, overwriting any chunk already
    /// stored under the identifier, and re-derives the node's advertised
    /// free space. Fails when the node is unknown or its capacity would
    /// be exceeded.
    pub fn put_chunk(&mut self, node_id: &str, chunk_id: &str, data: Vec<u8>) -> (r: Result<
        (),
        StorageError,
    >)
        requires
            registry_wf(old(self)@.nodes, old(self)@.stores),
        ensures
            registry_wf(final(self)@.nodes, final(self)@.stores),
            node_index_of(old(self)@.nodes, node_id@) is None ==> r == Err::<(), StorageError>(
                StorageError::NotFound,
            ) && final(self)@ == old(self)@,
            node_index_of(old(self)@.nodes, node_id@) matches Some(i) ==> ({
                let st = old(self)@.stores[i];
                let nd = old(self)@.nodes[i];
                let new_chunks = chunk_put(st.chunks, chunk_id@, data@);
                let new_used = store_used(new_chunks);
                if new_used > nd.total_space {
                    r == Err::<(), StorageError>(StorageError::NoSuitableNode) && final(self)@
                        == old(self)@
                } else {
                    r == Ok::<(), StorageError>(()) && final(self)@ == (StorageApiV {
                        nodes: old(self)@.nodes.update(
                            i,
                            NodeV { available_space: (nd.total_space - new_used) as u64, ..nd },
                        ),
                        stores: old(self)@.stores.update(
                            i,
                            NodeStoreV { node_id: st.node_id, chunks: new_chunks },
                        ),
                        ..old(self)@
                    })
                }
            }),
    {
        let ghost pre = self@;
        let idx = match self.node_index(node_id) {
            None => {
                return Err(StorageError::NotFound);
            },
            Some(i) => i,
        };
        let ghost st = pre.stores[idx as int];
        let ghost nd = pre.nodes[idx as int];
        proof {
            lemma_store_used_nonneg(st.chunks);
        }
        let total = self.nodes[idx].total_space;
        let used = used_bytes(&self.stores[idx].chunks);
        let ci = chunk_index(&self.stores[idx].chunks, chunk_id);
        let replaced: u64 = match ci {
            Some(c) => {
                proof {
                    lemma_chunk_index_in_range(st.chunks, chunk_id@);
                    lemma_store_used_elem(st.chunks, c as int);
                }
                self.stores[idx].chunks[c].data.len() as u64
            },
            None => 0,
        };
        let ghost new_chunks = chunk_put(st.chunks, chunk_id@, data@);
        proof {
            match chunk_index_of(st.chunks, chunk_id@) {
                Some(c) => {
                    lemma_chunk_index_in_range(st.chunks, chunk_id@);
                    lemma_store_used_update(
                        st.chunks,
                        c,
                        StoredChunkV { chunk_id: chunk_id@, data: data@ },
                    );
                },
                None => {
                    lemma_store_used_push(
                        st.chunks,
                        StoredChunkV { chunk_id: chunk_id@, data: data@ },
                    );
                },
            }
        }
        let fits = (used - replaced) as u128 + data.len() as u128 <= total as u128;
        if !fits {
            return Err(StorageError::NoSuitableNode);
        }
        let new_used: u64 = used - replaced + data.len() as u64;
        let fresh = StoredChunk { chunk_id: chunk_id.to_owned(), data };
        let ghost freshv = fresh@;
        let st_ref = &mut self.stores[idx];
        match ci {
            Some(c) => {
                st_ref.chunks[c] = fresh;
            },
            None => {
                st_ref.chunks.push(fresh);
            },
        }
        proof {
            assert(st_ref@.chunks =~~= new_chunks);
        }
        let nd_ref = &mut self.nodes[idx];
        nd_ref.available_space = total - new_used;
        proof {
            assert(self@.stores =~~= pre.stores.update(
                idx as int,
                NodeStoreV { node_id: st.node_id, chunks: new_chunks },
            ));
            assert(self@.nodes =~~= pre.nodes.update(
                idx as int,
                NodeV { available_space: (nd.total_space - store_used(new_chunks)) as u64, ..nd },
            ));
            assert(self@ == (StorageApiV {
                nodes: pre.nodes.update(
                    idx as int,
                    NodeV {
                        available_space: (nd.total_space - store_used(new_chunks)) as u64,
                        ..nd
                    },
                ),
                stores: pre.stores.update(
                    idx as int,
                    NodeStoreV { node_id: st.node_id, chunks: new_chunks },
                ),
                ..pre
            }));
            assert forall|k: int| 0 <= k < self@.nodes.len() implies #[trigger] self@.nodes[k].id
                == self@.stores[k].node_id && store_used(self@.stores[k].chunks)
                <= self@.nodes[k].total_space && self@.nodes[k].available_space
                == self@.nodes[k].total_space - store_used(self@.stores[k].chunks) by {
                if k != idx as int {
                    assert(self@.nodes[k] == pre.nodes[k]);
                    assert(self@.stores[k] == pre.stores[k]);
                }
            }
            assert forall|a: int, b: int| 0 <= a < b < self@.nodes.len() implies self@.nodes[a].id
                != self@.nodes[b].id by {
                assert(pre.nodes[a].id != pre.nodes[b].id);
                assert(self@.nodes[a].id == pre.nodes[a].id);
                assert(self@.nodes[b].id == pre.nodes[b].id);
            }
        }
        Ok(())
    }

    /// Reads a chunk's bytes back from a node. An unknown node is
    /// reported as not found; a missing chunk as a transfer failure.
    pub fn read_chunk(&self, node_id: &str, chunk_id: &str) -> (r: Result<Vec<u8>, StorageError>)
        requires
            registry_wf(self@.nodes, self@.stores),
        ensures
            node_index_of(self@.nodes, node_id@) is None ==> r == Err::<Vec<u8>, StorageError>(
                StorageError::NotFound,
            ),
            node_index_of(self@.nodes, node_id@) matches Some(i) ==> match chunk_find(
                self@.stores[i].chunks,
                chunk_id@,
            ) {
                None => r == Err::<Vec<u8>, StorageError>(StorageError::Transfer),
                Some(d) => r matches Ok(v) && v@ == d,
            },
    {
        let idx = match self.node_index(node_id) {
            None => {
                return Err(StorageError::NotFound);
            },
            Some(i) => i,
        };
        proof {
            assert(self@.stores[idx as int] == self.stores@[idx as int]@);
        }
        match chunk_index(&self.stores[idx].chunks, chunk_id) {
            None => Err(StorageError::Transfer),
            Some(c) => {
                proof {
                    lemma_chunk_index_in_range(self@.stores[idx as int].chunks, chunk_id@);
                }
                let out = copy_range(
                    &self.stores[idx].chunks[c].data,
                    0,
                    self.stores[idx].chunks[c].data.len(),
                );
                proof {
                    assert(out@ =~= self@.stores[idx as int].chunks[c as int].data);
                }
                Ok(out)
            },
        }
    }

    /// Removes a chunk from a node, if present, and re-derives the
    /// node's advertised free space upward. An unknown node is reported
    /// as not found; a missing chunk is not an error.
    pub fn delete_chunk(&mut self, node_id: &str, chunk_id: &str) -> (r: Result<(), StorageError>)
        requires
            registry_wf(old(self)@.nodes, old(self)@.stores),
        ensures
            registry_wf(final(self)@.nodes, final(self)@.stores),
            node_index_of(old(self)@.nodes, node_id@) is None ==> r == Err::<(), StorageError>(
                StorageError::NotFound,
            ) && final(self)@ == old(self)@,
            node_index_of(old(self)@.nodes, node_id@) matches Some(i) ==> ({
                let st = old(self)@.stores[i];
                let nd = old(self)@.nodes[i];
                let new_chunks = chunk_remove(st.chunks, chunk_id@);
                let new_used = store_used(new_chunks);
                r == Ok::<(), StorageError>(()) && final(self)@ == (StorageApiV {
                    nodes: old(self)@.nodes.update(
                        i,
                        NodeV { available_space: (nd.total_space - new_used) as u64, ..nd },
                    ),
                    stores: old(self)@.stores.update(
                        i,
                        NodeStoreV { node_id: st.node_id, chunks: new_chunks },
                    ),
                    ..old(self)@
                })
            }),
    {
        let ghost pre = self@;
        let idx = match self.node_index(node_id) {
            None => {
                return Err(StorageError::NotFound);
            },
            Some(i) => i,
        };
        let ghost st = pre.stores[idx as int];
        let ghost nd = pre.nodes[idx as int];
        proof {
            lemma_store_used_nonneg(st.chunks);
        }
        let total = self.nodes[idx].total_space;
        let used = used_bytes(&self.stores[idx].chunks);
        let ci = chunk_index(&self.stores[idx].chunks, chunk_id);
        let removed: u64 = match ci {
            Some(c) => {
                proof {
                    lemma_chunk_index_in_range(st.chunks, chunk_id@);
                    lemma_store_used_elem(st.chunks, c as int);
                    lemma_store_used_remove(st.chunks, c as int);
                }
                self.stores[idx].chunks[c].data.len() as u64
            },
            None => 0,
        };
        let ghost new_chunks = chunk_remove(st.chunks, chunk_id@);
        let new_used: u64 = used - removed;
        let st_ref = &mut self.stores[idx];
        match ci {
            Some(c) => {
                let _ = st_ref.chunks.remove(c);
            },
            None => {},
        }
        proof {
            assert(st_ref@.chunks =~~= new_chunks);
        }
        let nd_ref = &mut self.nodes[idx];
        nd_ref.available_space = total - new_used;
        proof {
            assert(self@.stores =~~= pre.stores.update(
                idx as int,
                NodeStoreV { node_id: st.node_id, chunks: new_chunks },
            ));
            assert(self@.nodes =~~= pre.nodes.update(
                idx as int,
                NodeV { available_space: (nd.total_space - store_used(new_chunks)) as u64, ..nd },
            ));
            assert(self@ == (StorageApiV {
                nodes: pre.nodes.update(
                    idx as int,
                    NodeV {
                        available_space: (nd.total_space - store_used(new_chunks)) as u64,
                        ..nd
                    },
                ),
                stores: pre.stores.update(
                    idx as int,
                    NodeStoreV { node_id: st.node_id, chunks: new_chunks },
                ),
                ..pre
            }));
            assert forall|k: int| 0 <= k < self@.nodes.len() implies #[trigger] self@.nodes[k].id
                == self@.stores[k].node_id && store_used(self@.stores[k].chunks)
                <= self@.nodes[k].total_space && self@.nodes[k].available_space
                == self@.nodes[k].total_space - store_used(self@.stores[k].chunks) by {
                if k != idx as int {
                    assert(self@.nodes[k] == pre.nodes[k]);
                    assert(self@.stores[k] == pre.stores[k]);
                }
            }
            assert forall|a: int, b: int| 0 <= a < b < self@.nodes.len() implies self@.nodes[a].id
                != self@.nodes[b].id by {
                assert(pre.nodes[a].id != pre.nodes[b].id);
                assert(self@.nodes[a].id == pre.nodes[a].id);
                assert(self@.nodes[b].id == pre.nodes[b].id);
            }
        }
        Ok(())
    }
}

} // verus!

verus! {

/// With distinct identifiers, the node at a position is the one its
/// identifier finds.
pub proof fn lemma_node_index_unique(nodes: Seq<NodeV>, i: int)
    requires
        nodes_wf(nodes),
        0 <= i < nodes.len(),
    ensures
        node_index_of(nodes, nodes[i].id) == Some(i),
    decreases nodes.len(),
{
    if nodes[0].id == nodes[i].id {
        assert(i == 0);
    } else {
        assert(i > 0);
        assert(nodes_wf(nodes.drop_first())) by {
            assert forall|a: int, b: int|
                0 <= a < b < nodes.drop_first().len() implies nodes.drop_first()[a].id
                != nodes.drop_first()[b].id by {
                assert(nodes.drop_first()[a] == nodes[a + 1]);
                assert(nodes.drop_first()[b] == nodes[b + 1]);
            }
        }
        assert(nodes.drop_first()[i - 1] == nodes[i]);
        lemma_node_index_unique(nodes.drop_first(), i - 1);
    }
}

/// The outcome of placing a run of chunks: the evolved registry and
/// store images, the recorded chunk information in order, and whether
/// every chunk found a node.
#[verifier::ext_equal]
pub struct PlacementV {
    pub nodes: Seq<NodeV>,
    pub stores: Seq<NodeStoreV>,
    pub infos: Seq<ChunkInfoV>,
    pub ok: bool,
}

/// First-fit placement of each chunk in order, with identifiers drawn
/// from the counter. A node's advertised free space is re-derived from
/// its store image after every confirmed store; chunks already placed
/// stay placed when a later chunk finds no node.
pub open spec fn place_chunks(
    nodes: Seq<NodeV>,
    stores: Seq<NodeStoreV>,
    pieces: Seq<Seq<u8>>,
    next: nat,
) -> PlacementV
    decreases pieces.len(),
{
    if pieces.len() == 0 {
        PlacementV { nodes, stores, infos: Seq::empty(), ok: true }
    } else {
        let piece = pieces[0];
        match first_fit(nodes, stores, piece.len() as u64) {
            None => PlacementV { nodes, stores, infos: Seq::empty(), ok: false },
            Some(i) => {
                let id = dec_str(next);
                let st = stores[i];
                let nd = nodes[i];
                let new_chunks = chunk_put(st.chunks, id, piece);
                let new_used = store_used(new_chunks);
                let new_avail: u64 = if 0 <= new_used <= nd.total_space {
                    (nd.total_space - new_used) as u64
                } else {
                    0
                };
                let nodes2 = nodes.update(i, NodeV { available_space: new_avail, ..nd });
                let stores2 = stores.update(
                    i,
                    NodeStoreV { node_id: st.node_id, chunks: new_chunks },
                );
                let info = ChunkInfoV {
                    chunk_id: id,
                    node_id: nd.id,
                    size: piece.len() as u64,
                    hash: sha256_of(piece),
                };
                let rest = place_chunks(nodes2, stores2, pieces.drop_first(), next + 1);
                PlacementV {
                    nodes: rest.nodes,
                    stores: rest.stores,
                    infos: seq![info] + rest.infos,
                    ok: rest.ok,
                }
            },
        }
    }
}

/// What one upload does to the engine, for every outcome. The whole-file
/// capacity check comes first; then key material is resolved (creating
/// the vault record); then the sealed blob is cut into placement chunks
/// and placed first-fit. Metadata appears only when every chunk is
/// stored; chunks already stored are not retracted on a later failure.
pub open spec fn upload_transition(
    pre: StorageApiV,
    post: StorageApiV,
    file_name: Seq<char>,
    data: Seq<u8>,
    owner: Seq<char>,
    password: Seq<u8>,
    r: Result<Seq<char>, StorageError>,
) -> bool {
    let id = dec_str(pre.next_id as nat);
    let whole: u64 = data.len() as u64;
    if pre.next_id == u64::MAX {
        post == pre && r == Err::<Seq<char>, StorageError>(StorageError::NoSuitableNode)
    } else if first_fit(pre.nodes, pre.stores, whole) is None {
        post == pre && r == Err::<Seq<char>, StorageError>(StorageError::NoSuitableNode)
    } else {
        (vault_find(post.vault, id) matches Some(rec) && rec.kek == kek_of(password)
            && key_data_wf(rec.material) && post.vault == pre.vault.push(rec) && {
            let kv = rec.material;
            let blob = sealed_data_blob(kv.key, kv.iv, data, pre.inner_chunk_size as nat);
            let pieces = chunks_of(blob, pre.placement_chunk_size as nat);
            let cfg_ok = post.inner_chunk_size == pre.inner_chunk_size
                && post.placement_chunk_size == pre.placement_chunk_size;
            &&& open_blob(kv.key, kv.iv, blob) == Ok::<Seq<u8>, StorageError>(data)
            &&& if pre.next_id + 1 + pieces.len() > u64::MAX {
                post.nodes == pre.nodes && post.stores == pre.stores && post.files == pre.files
                    && post.next_id == pre.next_id + 1 && cfg_ok && r == Err::<
                    Seq<char>,
                    StorageError,
                >(StorageError::NoSuitableNode)
            } else {
                let pl = place_chunks(pre.nodes, pre.stores, pieces, pre.next_id as nat + 1);
                post.nodes == pl.nodes && post.stores == pl.stores && post.next_id == pre.next_id
                    + 1 + pieces.len() && cfg_ok && if pl.ok {
                    r == Ok::<Seq<char>, StorageError>(id) && post.files.len() == pre.files.len()
                        + 1 && post.files.take(pre.files.len() as int) == pre.files && {
                        let meta = post.files.last();
                        meta.file_id == id && meta.file_name == file_name && meta.node_id
                            == Seq::<char>::empty() && meta.file_size == whole && meta.chunks
                            == pl.infos && meta.owner == owner
                    }
                } else {
                    post.files == pre.files && r == Err::<Seq<char>, StorageError>(
                        StorageError::NoSuitableNode,
                    )
                }
            }
        })
    }
}

impl StorageAPI {
    /// Uploads a byte stream: whole-file capacity check, encryption
    /// through the vault, first-fit placement of each 
    /// placement-sized chunk, and only then a metadata record. Returns
    /// the new file identifier.
    #[verifier::loop_isolation(false)]
    #[verifier::rlimit(100)]
    pub fn upload_file(&mut self, file_name: &str, data: &Vec<u8>, owner: &str, password: &str) -> (r:
        Result<String, StorageError>)
        requires
            old(self).wf(),
        ensures
            final(self).wf(),
            upload_transition(
                old(self)@,
                final(self)@,
                file_name@,
                data@,
                owner@,
                password.spec_bytes(),
                match r {
                    Ok(id) => Ok(id@),
                    Err(e) => Err(e),
                },
            ),
    {
        let ghost pre = self@;
        if self.next_id == u64::MAX {
            return Err(StorageError::NoSuitableNode);
        }
        let whole = data.len() as u64;
        match self.select_node(whole) {
            Err(_) => {
                return Err(StorageError::NoSuitableNode);
            },
            Ok(_) => {},
        }
        let fid = u64_to_dec(self.next_id);
        let ghost idg = dec_str(pre.next_id as nat);
        proof {
            crate::vault::lemma_vault_find_some(pre.vault, idg);
            if vault_find(pre.vault, idg) is Some {
                let i = choose|i: int|
                    0 <= i < pre.vault.len() && pre.vault[i] == vault_find(
                        pre.vault,
                        idg,
                    ).unwrap() && #[trigger] pre.vault[i].file_id == idg;
                assert(issued_id(pre.vault[i].file_id, pre.next_id));
                let k = choose|k: nat| k < pre.next_id && pre.vault[i].file_id == dec_str(k);
                lemma_dec_str_injective(k, pre.next_id as nat);
                assert(false);
            }
        }
        let ics = self.inner_chunk_size;
        let blob = match encrypt_data_chunked(&mut self.vault, fid.as_str(), data, password, ics) {
            Ok(b) => b,
            Err(e) => {
                proof {
                    assert(false);
                }
                return Err(e);
            },
        };
        let ghost rec = vault_find(self@.vault, idg).unwrap();
        let ghost vault2 = pre.vault.push(rec);
        proof {
            assert(self@.vault == vault2);
            crate::vault::lemma_vault_find_some(self@.vault, idg);
            let i = choose|i: int|
                0 <= i < self@.vault.len() && self@.vault[i] == rec
                    && #[trigger] self@.vault[i].file_id == idg;
            assert(crate::vault::vault_rec_wf(self@.vault[i]));
            assert(unseal_key(rec.kek, rec.blob) == Some(rec.material));
        }
        let next0 = self.next_id;
        self.next_id = next0 + 1;
        let pieces = split_into_chunks(&blob, self.placement_chunk_size);
        let ghost pieces_v = pieces.deep_view();
        let pieces_len = pieces.len();
        if !(next0 as u128 + 1 + pieces_len as u128 <= u64::MAX as u128) {
            proof {
                assert forall|i: int| 0 <= i < self@.vault.len() implies issued_id(
                    #[trigger] self@.vault[i].file_id,
                    self@.next_id,
                ) by {
                    if i < pre.vault.len() {
                        assert(issued_id(pre.vault[i].file_id, pre.next_id));
                        let k = choose|k: nat|
                            k < pre.next_id && pre.vault[i].file_id == dec_str(k);
                        assert(k < self@.next_id && self@.vault[i].file_id == dec_str(k));
                    } else {
                        assert(self@.vault[i] == rec);
                        assert(self@.vault[i].file_id == dec_str(pre.next_id as nat));
                        assert((pre.next_id as nat) < self@.next_id);
                    }
                }
                assert forall|i: int| 0 <= i < self@.files.len() implies issued_id(
                    #[trigger] self@.files[i].file_id,
                    self@.next_id,
                ) by {
                    assert(issued_id(pre.files[i].file_id, pre.next_id));
                    let k = choose|k: nat| k < pre.next_id && pre.files[i].file_id == dec_str(k);
                    assert(k < self@.next_id && self@.files[i].file_id == dec_str(k));
                }
                assert(self@.files == pre.files);
                assert forall|a: int, b: int|
                    0 <= a < b < self@.files.len() implies self@.files[a].file_id
                    != self@.files[b].file_id by {
                    assert(pre.files[a].file_id != pre.files[b].file_id);
                }
                assert(self.wf());
            }
            return Err(StorageError::NoSuitableNode);
        }
        let ghost pl = place_chunks(pre.nodes, pre.stores, pieces_v, pre.next_id as nat + 1);
        let mut infos: Vec<ChunkInfo> = Vec::new();
        let mut j: usize = 0;
        proof {
            assert(pieces_v.skip(0) =~= pieces_v);
            assert(infos.deep_view() =~~= Seq::<ChunkInfoV>::empty());
            assert(Seq::<ChunkInfoV>::empty() + place_chunks(
                self@.nodes,
                self@.stores,
                pieces_v,
                next0 as nat + 1,
            ).infos =~= place_chunks(self@.nodes, self@.stores, pieces_v, next0 as nat + 1).infos);
        }
        while j < pieces_len
            invariant
                registry_wf(self@.nodes, self@.stores),
                crate::vault::vault_wf(self@.vault),
                old(self).wf(),
                pre == old(self)@,
                j <= pieces_v.len(),
                pieces_len == pieces_v.len(),
                pieces.deep_view() == pieces_v,
                pieces@.len() == pieces_v.len(),
                next0 == pre.next_id,
                next0 as int + 1 + pieces_v.len() <= u64::MAX,
                self@.next_id == next0 + 1,
                self@.files == pre.files,
                self@.vault == vault2,
                self@.inner_chunk_size == pre.inner_chunk_size,
                self@.placement_chunk_size == pre.placement_chunk_size,
                pl == place_chunks(pre.nodes, pre.stores, pieces_v, next0 as nat + 1),
                infos.deep_view().len() == j,
                ({
                    let rest = place_chunks(
                        self@.nodes,
                        self@.stores,
                        pieces_v.skip(j as int),
                        (next0 + 1 + j) as nat,
                    );
                    pl == (PlacementV {
                        nodes: rest.nodes,
                        stores: rest.stores,
                        infos: infos.deep_view() + rest.infos,
                        ok: rest.ok,
                    })
                }),
            decreases pieces_v.len() - j,
        {
            let ghost cur = self@;
            let ghost tail = pieces_v.skip(j as int);
            proof {
                assert(tail[0] == pieces_v[j as int]);
                assert(pieces_v[j as int] == pieces@[j as int]@);
                assert(tail.drop_first() =~= pieces_v.skip(j as int + 1));
            }
            let piece_len = pieces[j].len();
            let node_idx = match self.select_node(piece_len as u64) {
                Err(_) => {
                    self.next_id = next0 + 1 + pieces_len as u64;
                    proof {
                        let rest = place_chunks(
                            cur.nodes,
                            cur.stores,
                            tail,
                            (next0 + 1 + j) as nat,
                        );
                        assert(rest == (PlacementV {
                            nodes: cur.nodes,
                            stores: cur.stores,
                            infos: Seq::<ChunkInfoV>::empty(),
                            ok: false,
                        }));
                        assert(!pl.ok && pl.nodes == cur.nodes && pl.stores == cur.stores);
                        assert forall|i: int| 0 <= i < self@.vault.len() implies issued_id(
                            #[trigger] self@.vault[i].file_id,
                            self@.next_id,
                        ) by {
                            if i < pre.vault.len() {
                                assert(issued_id(pre.vault[i].file_id, pre.next_id));
                                let k = choose|k: nat|
                                    k < pre.next_id && pre.vault[i].file_id == dec_str(k);
                                assert(k < self@.next_id && self@.vault[i].file_id == dec_str(k));
                            } else {
                                assert(self@.vault[i] == rec);
                                assert(rec.file_id == dec_str(pre.next_id as nat));
                                assert(pre.next_id < self@.next_id);
                            }
                        }
                        assert forall|i: int| 0 <= i < self@.files.len() implies issued_id(
                            #[trigger] self@.files[i].file_id,
                            self@.next_id,
                        ) by {
                            assert(issued_id(pre.files[i].file_id, pre.next_id));
                            let k = choose|k: nat|
                                k < pre.next_id && pre.files[i].file_id == dec_str(k);
                            assert(k < self@.next_id && self@.files[i].file_id == dec_str(k));
                        }
                    }
                    return Err(StorageError::NoSuitableNode);
                },
                Ok(i) => i,
            };
            proof {
                lemma_first_fit_in_range(cur.nodes, cur.stores, piece_len as u64);
            }
            let cid = u64_to_dec(next0 + 1 + j as u64);
            let node_id_s = self.nodes[node_idx].id.clone();
            proof {
                assert(cur.nodes[node_idx as int] == self.nodes@[node_idx as int]@);
                lemma_node_index_unique(cur.nodes, node_idx as int);
            }
            let piece_copy = copy_range(&pieces[j], 0, pieces[j].len());
            let hash = sha256(pieces[j].as_slice());
            proof {
                assert(piece_copy@ =~= pieces_v[j as int]);
                let st = cur.stores[node_idx as int];
                let new_chunks = chunk_put(st.chunks, cid@, piece_copy@);
                lemma_store_used_nonneg(st.chunks);
                match chunk_index_of(st.chunks, cid@) {
                    Some(c) => {
                        lemma_chunk_index_in_range(st.chunks, cid@);
                        lemma_store_used_elem(st.chunks, c);
                        lemma_store_used_update(
                            st.chunks,
                            c,
                            StoredChunkV { chunk_id: cid@, data: piece_copy@ },
                        );
                    },
                    None => {
                        lemma_store_used_push(
                            st.chunks,
                            StoredChunkV { chunk_id: cid@, data: piece_copy@ },
                        );
                    },
                }
                assert(store_used(new_chunks) <= cur.nodes[node_idx as int].total_space);
            }
            let res = self.put_chunk(node_id_s.as_str(), cid.as_str(), piece_copy);
            match res {
                Err(_) => {
                    proof {
                        assert(false);
                    }
                    return Err(StorageError::Transfer);
                },
                Ok(_) => {},
            }
            let ghost before_infos = infos.deep_view();
            infos.push(ChunkInfo { chunk_id: cid, node_id: node_id_s, size: piece_len as u64, hash });
            proof {
                let info = ChunkInfoV {
                    chunk_id: cid@,
                    node_id: cur.nodes[node_idx as int].id,
                    size: piece_len as u64,
                    hash: sha256_of(pieces_v[j as int]),
                };
                assert(infos.deep_view() =~~= before_infos.push(info));
                let rest_old = place_chunks(cur.nodes, cur.stores, tail, (next0 + 1 + j) as nat);
                let rest_new = place_chunks(
                    self@.nodes,
                    self@.stores,
                    pieces_v.skip(j as int + 1),
                    (next0 + 1 + j + 1) as nat,
                );
                assert(rest_old == (PlacementV {
                    nodes: rest_new.nodes,
                    stores: rest_new.stores,
                    infos: seq![info] + rest_new.infos,
                    ok: rest_new.ok,
                }));
                assert(before_infos.push(info) + rest_new.infos =~= before_infos + (seq![info]
                    + rest_new.infos));
            }
            j = j + 1;
        }
        let ghost cur = self@;
        proof {
            assert(pieces_v.skip(pieces_v.len() as int) =~= Seq::<Seq<u8>>::empty());
            let rest = place_chunks(
                cur.nodes,
                cur.stores,
                pieces_v.skip(pieces_v.len() as int),
                (next0 + 1 + pieces_v.len()) as nat,
            );
            assert(rest.ok && rest.nodes == cur.nodes && rest.stores == cur.stores
                && rest.infos =~= Seq::<ChunkInfoV>::empty());
            assert(infos.deep_view() + rest.infos =~= infos.deep_view());
            assert(pl.ok && pl.nodes == cur.nodes && pl.stores == cur.stores && pl.infos
                == infos.deep_view());
        }
        let meta = FileMetadata {
            file_id: fid.clone(),
            file_name: file_name.to_owned(),
            node_id: String::new(),
            file_size: whole,
            chunks: infos,
            timestamp: crate::platform::now_secs(),
            owner: owner.to_owned(),
        };
        let ghost metav = meta@;
        self.file_index.push(meta);
        self.next_id = next0 + 1 + pieces_len as u64;
        proof {
            assert(self@.files =~~= pre.files.push(metav));
            assert(self@.files.take(pre.files.len() as int) =~= pre.files);
            assert(self@.files.last() == metav);
            assert(metav.node_id =~= Seq::<char>::empty());
            assert(metav.chunks =~~= pl.infos);
            assert forall|a: int, b: int| 0 <= a < b < self@.files.len() implies
                self@.files[a].file_id != self@.files[b].file_id by {
                if b == self@.files.len() - 1 {
                    assert(issued_id(pre.files[a].file_id, pre.next_id));
                    if self@.files[a].file_id == self@.files[b].file_id {
                        let k = choose|k: nat|
                            k < pre.next_id && pre.files[a].file_id == dec_str(k);
                        lemma_dec_str_injective(k, pre.next_id as nat);
                        assert(false);
                    }
                } else {
                    assert(pre.files[a].file_id != pre.files[b].file_id);
                }
            }
            assert forall|i: int| 0 <= i < self@.files.len() implies issued_id(
                #[trigger] self@.files[i].file_id,
                self@.next_id,
            ) by {
                if i < pre.files.len() {
                    assert(issued_id(pre.files[i].file_id, pre.next_id));
                    let k = choose|k: nat| k < pre.next_id && pre.files[i].file_id == dec_str(k);
                    assert(k < self@.next_id && self@.files[i].file_id == dec_str(k));
                } else {
                    assert(self@.files[i].file_id == dec_str(pre.next_id as nat));
                    assert(pre.next_id < self@.next_id);
                }
            }
            assert forall|i: int| 0 <= i < self@.vault.len() implies issued_id(
                #[trigger] self@.vault[i].file_id,
                self@.next_id,
            ) by {
                if i < pre.vault.len() {
                    assert(issued_id(pre.vault[i].file_id, pre.next_id));
                    let k = choose|k: nat| k < pre.next_id && pre.vault[i].file_id == dec_str(k);
                    assert(k < self@.next_id && self@.vault[i].file_id == dec_str(k));
                } else {
                    assert(self@.vault[i] == rec);
                    assert(rec.file_id == dec_str(pre.next_id as nat));
                    assert(pre.next_id < self@.next_id);
                }
            }
        }
        Ok(fid)
    }
}

} // verus!

verus! {

/// Fetching a file's chunks in order: each is read from its node and its
/// content hash is recomputed and compared before anything is used. An
/// unknown node is a lookup failure, a missing chunk a transfer failure,
/// and a digest mismatch a chunk-integrity failure.
pub open spec fn fetch_chunks(
    nodes: Seq<NodeV>,
    stores: Seq<NodeStoreV>,
    chunks: Seq<ChunkInfoV>,
) -> Result<Seq<u8>, StorageError>
    decreases chunks.len(),
{
    if chunks.len() == 0 {
        Ok(Seq::empty())
    } else {
        let c = chunks[0];
        match node_index_of(nodes, c.node_id) {
            None => Err(StorageError::NotFound),
            Some(i) => match chunk_find(stores[i].chunks, c.chunk_id) {
                None => Err(StorageError::Transfer),
                Some(data) => if sha256_of(data) != c.hash {
                    Err(StorageError::ChunkIntegrity)
                } else {
                    match fetch_chunks(nodes, stores, chunks.drop_first()) {
                        Err(e) => Err(e),
                        Ok(rest) => Ok(data + rest),
                    }
                },
            },
        }
    }
}

/// Freeing a file's chunks in order: each present chunk is removed from
/// its node and the node's advertised free space re-derived upward. A
/// missing node or chunk is skipped — it never blocks the rest.
pub open spec fn free_chunks(
    nodes: Seq<NodeV>,
    stores: Seq<NodeStoreV>,
    chunks: Seq<ChunkInfoV>,
) -> (Seq<NodeV>, Seq<NodeStoreV>)
    decreases chunks.len(),
{
    if chunks.len() == 0 {
        (nodes, stores)
    } else {
        let c = chunks[0];
        match node_index_of(nodes, c.node_id) {
            None => free_chunks(nodes, stores, chunks.drop_first()),
            Some(i) => {
                let st = stores[i];
                let nd = nodes[i];
                let new_chunks = chunk_remove(st.chunks, c.chunk_id);
                let new_used = store_used(new_chunks);
                let new_avail: u64 = if 0 <= new_used <= nd.total_space {
                    (nd.total_space - new_used) as u64
                } else {
                    0
                };
                free_chunks(
                    nodes.update(i, NodeV { available_space: new_avail, ..nd }),
                    stores.update(i, NodeStoreV { node_id: st.node_id, chunks: new_chunks }),
                    chunks.drop_first(),
                )
            },
        }
    }
}

impl StorageAPI {
    /// The position of the file record with the given identifier, if any.
    fn file_pos(&self, file_id: &str) -> (r: Option<usize>)
        ensures
            match r {
                Some(i) => file_index_of(self@.files, file_id@) == Some(i as int) && i
                    < self@.files.len(),
                None => file_index_of(self@.files, file_id@) is None,
            },
    {
        let ghost s = self@.files;
        proof {
            assert(s.skip(0) =~= s);
        }
        let mut i: usize = 0;
        while i < self.file_index.len()
            invariant
                i <= s.len(),
                s == self@.files,
                s.len() == self.file_index@.len(),
                match file_index_of(s.skip(i as int), file_id@) {
                    None => file_index_of(s, file_id@) is None,
                    Some(k) => file_index_of(s, file_id@) == Some(k + i),
                },
            decreases s.len() - i,
        {
            proof {
                assert(s.skip(i as int)[0] == s[i as int]);
                assert(s[i as int] == self.file_index@[i as int]@);
                assert(s.skip(i as int).drop_first() =~= s.skip(i as int + 1));
            }
            if str_equal(self.file_index[i].file_id.as_str(), file_id) {
                return Some(i);
            }
            i = i + 1;
        }
        proof {
            assert(s.skip(s.len() as int) =~= Seq::<FileMetadataV>::empty());
        }
        None
    }

    /// Downloads a file: each chunk is fetched from its node and its
    /// content hash verified before the reassembled blob is opened
    /// through the vault. No plaintext is produced unless every chunk
    /// verified and the blob's integrity tag matched.
    #[verifier::loop_isolation(false)]
    #[verifier::rlimit(100)]
    pub fn download_file(&self, file_id: &str, password: &str) -> (r: Result<Vec<u8>, StorageError>)
        requires
            self.wf(),
        ensures
            file_index_of(self@.files, file_id@) is None ==> r == Err::<Vec<u8>, StorageError>(
                StorageError::NotFound,
            ),
            file_index_of(self@.files, file_id@) matches Some(fi) ==> ({
                let meta = self@.files[fi];
                match fetch_chunks(self@.nodes, self@.stores, meta.chunks) {
                    Err(e) => r == Err::<Vec<u8>, StorageError>(e),
                    Ok(blob) => match vault_find(self@.vault, file_id@) {
                        None => r == Err::<Vec<u8>, StorageError>(StorageError::KeyNotFound),
                        Some(rec) => match unseal_key(kek_of(password.spec_bytes()), rec.blob) {
                            None => r == Err::<Vec<u8>, StorageError>(StorageError::KeyCorruption),
                            Some(kv) => match open_blob(kv.key, kv.iv, blob) {
                                Ok(p) => r matches Ok(d) && d@ == p,
                                Err(e) => r == Err::<Vec<u8>, StorageError>(e),
                            },
                        },
                    },
                }
            }),
    {
        let fi = match self.file_pos(file_id) {
            None => {
                return Err(StorageError::NotFound);
            },
            Some(i) => i,
        };
        let ghost meta = self@.files[fi as int];
        let ghost cs = meta.chunks;
        proof {
            assert(meta == self.file_index@[fi as int]@);
            assert(cs.skip(0) =~= cs);
        }
        let mut buf: Vec<u8> = Vec::new();
        let chunk_count = self.file_index[fi].chunks.len();
        let mut c: usize = 0;
        while c < chunk_count
            invariant
                c <= cs.len(),
                chunk_count == cs.len(),
                fi < self@.files.len(),
                meta == self@.files[fi as int],
                cs == meta.chunks,
                fetch_chunks(self@.nodes, self@.stores, cs) == match fetch_chunks(
                    self@.nodes,
                    self@.stores,
                    cs.skip(c as int),
                ) {
                    Err(e) => Err::<Seq<u8>, StorageError>(e),
                    Ok(rest) => Ok(buf@ + rest),
                },
            decreases cs.len() - c,
        {
            let ghost tail = cs.skip(c as int);
            proof {
                assert(tail[0] == cs[c as int]);
                assert(cs[c as int] == self.file_index@[fi as int].chunks@[c as int]@);
                assert(tail.drop_first() =~= cs.skip(c as int + 1));
            }
            let info_node = self.file_index[fi].chunks[c].node_id.clone();
            let info_chunk = self.file_index[fi].chunks[c].chunk_id.clone();
            let ni = match self.node_index(info_node.as_str()) {
                None => {
                    return Err(StorageError::NotFound);
                },
                Some(i) => i,
            };
            proof {
                assert(self@.stores[ni as int] == self.stores@[ni as int]@);
            }
            let ci = match chunk_index(&self.stores[ni].chunks, info_chunk.as_str()) {
                None => {
                    return Err(StorageError::Transfer);
                },
                Some(i) => i,
            };
            proof {
                lemma_chunk_index_in_range(self@.stores[ni as int].chunks, info_chunk@);
            }
            let data = &self.stores[ni].chunks[ci].data;
            let digest = sha256(data.as_slice());
            if !bytes_eq(&digest, &self.file_index[fi].chunks[c].hash) {
                return Err(StorageError::ChunkIntegrity);
            }
            let ghost before = buf@;
            append_bytes(&mut buf, data);
            proof {
                if let Ok(rest) = fetch_chunks(self@.nodes, self@.stores, cs.skip(c as int + 1)) {
                    assert((before + data@) + rest =~= before + (data@ + rest));
                }
            }
            c = c + 1;
        }
        proof {
            assert(cs.skip(cs.len() as int) =~= Seq::<ChunkInfoV>::empty());
            assert(buf@ + Seq::<u8>::empty() =~= buf@);
            assert(fetch_chunks(self@.nodes, self@.stores, cs) == Ok::<Seq<u8>, StorageError>(
                buf@,
            ));
        }
        crate::pipeline::decrypt_data_chunked(&self.vault, file_id, &buf, password)
    }

    /// Deletes a file after checking the caller owns it: every chunk is
    /// freed from its node (a missing chunk never blocks the rest), the
    /// freed bytes raise the nodes' advertised space, and only then is
    /// the metadata dropped. The vault record is kept: the vault never
    /// forgets material.
    #[verifier::loop_isolation(false)]
    #[verifier::rlimit(100)]
    pub fn delete_file(&mut self, file_id: &str, owner: &str) -> (r: Result<(), StorageError>)
        requires
            old(self).wf(),
        ensures
            final(self).wf(),
            file_index_of(old(self)@.files, file_id@) is None ==> r == Err::<(), StorageError>(
                StorageError::NotFound,
            ) && final(self)@ == old(self)@,
            file_index_of(old(self)@.files, file_id@) matches Some(fi) ==> (old(
                self,
            )@.files[fi].owner != owner@ ==> r == Err::<(), StorageError>(
                StorageError::Authorization,
            ) && final(self)@ == old(self)@),
            file_index_of(old(self)@.files, file_id@) matches Some(fi) ==> (old(
                self,
            )@.files[fi].owner == owner@ ==> {
                let meta = old(self)@.files[fi];
                let freed = free_chunks(old(self)@.nodes, old(self)@.stores, meta.chunks);
                r == Ok::<(), StorageError>(()) && final(self)@ == (StorageApiV {
                    nodes: freed.0,
                    stores: freed.1,
                    files: old(self)@.files.remove(fi),
                    ..old(self)@
                })
            }),
    {
        let ghost pre = self@;
        let fi = match self.file_pos(file_id) {
            None => {
                return Err(StorageError::NotFound);
            },
            Some(i) => i,
        };
        if !str_equal(self.file_index[fi].owner.as_str(), owner) {
            proof {
                assert(self@.files[fi as int].owner != owner@);
            }
            return Err(StorageError::Authorization);
        }
        let ghost meta = pre.files[fi as int];
        let ghost cs = meta.chunks;
        proof {
            assert(cs.skip(0) =~= cs);
        }
        let chunk_count = self.file_index[fi].chunks.len();
        let mut c: usize = 0;
        while c < chunk_count
            invariant
                c <= cs.len(),
                chunk_count == cs.len(),
                registry_wf(self@.nodes, self@.stores),
                self@.files == pre.files,
                self@.vault == pre.vault,
                self@.next_id == pre.next_id,
                self@.inner_chunk_size == pre.inner_chunk_size,
                self@.placement_chunk_size == pre.placement_chunk_size,
                free_chunks(pre.nodes, pre.stores, cs) == free_chunks(
                    self@.nodes,
                    self@.stores,
                    cs.skip(c as int),
                ),
            decreases cs.len() - c,
        {
            let ghost cur = self@;
            let ghost tail = cs.skip(c as int);
            proof {
                assert(tail[0] == cs[c as int]);
                assert(cs[c as int] == self.file_index@[fi as int].chunks@[c as int]@);
                assert(tail.drop_first() =~= cs.skip(c as int + 1));
            }
            let info_node = self.file_index[fi].chunks[c].node_id.clone();
            let info_chunk = self.file_index[fi].chunks[c].chunk_id.clone();
            match self.node_index(info_node.as_str()) {
                None => {},
                Some(ni) => {
                    let res = self.delete_chunk(info_node.as_str(), info_chunk.as_str());
                    proof {
                        assert(res is Ok);
                        let st = cur.stores[ni as int];
                        let nd = cur.nodes[ni as int];
                        let new_chunks = chunk_remove(st.chunks, info_chunk@);
                        lemma_store_used_nonneg(new_chunks);
                        match chunk_index_of(st.chunks, info_chunk@) {
                            Some(cidx) => {
                                lemma_chunk_index_in_range(st.chunks, info_chunk@);
                                lemma_store_used_remove(st.chunks, cidx);
                                lemma_store_used_elem(st.chunks, cidx);
                            },
                            None => {},
                        }
                        assert(store_used(new_chunks) <= nd.total_space);
                    }
                },
            }
            c = c + 1;
        }
        proof {
            assert(cs.skip(cs.len() as int) =~= Seq::<ChunkInfoV>::empty());
        }
        let ghost freed = free_chunks(pre.nodes, pre.stores, cs);
        proof {
            assert(freed.0 == self@.nodes && freed.1 == self@.stores);
        }
        let _ = self.file_index.remove(fi);
        proof {
            assert(self@.files =~~= pre.files.remove(fi as int));
            assert(self@ == (StorageApiV {
                nodes: freed.0,
                stores: freed.1,
                files: pre.files.remove(fi as int),
                ..pre
            }));
            assert forall|a: int, b: int| 0 <= a < b < self@.files.len() implies
                self@.files[a].file_id != self@.files[b].file_id by {
                let a0 = if a < fi as int { a } else { a + 1 };
                let b0 = if b < fi as int { b } else { b + 1 };
                assert(self@.files[a] == pre.files[a0]);
                assert(self@.files[b] == pre.files[b0]);
                assert(pre.files[a0].file_id != pre.files[b0].file_id);
            }
            assert forall|i: int| 0 <= i < self@.files.len() implies issued_id(
                #[trigger] self@.files[i].file_id,
                self@.next_id,
            ) by {
                let i0 = if i < fi as int { i } else { i + 1 };
                assert(self@.files[i] == pre.files[i0]);
                assert(issued_id(pre.files[i0].file_id, pre.next_id));
            }
        }
        Ok(())
    }
}

} // verus!

verus! {

/// The hex rendering of a byte string's digest, as recorded per chunk.
pub fn calculate_hash(data: &Vec<u8>) -> (r: String)
    ensures
        r@ == crate::textform::hex_of(sha256_of(data@)),
{
    let digest = sha256(data.as_slice());
    crate::textform::bytes_to_hex(&digest)
}

/// The summed sizes of recorded chunk information.
pub open spec fn info_size_total(infos: Seq<ChunkInfoV>) -> int
    decreases infos.len(),
{
    if infos.len() == 0 {
        0
    } else {
        infos[0].size + info_size_total(infos.drop_first())
    }
}

/// A placement that succeeds records one entry per chunk, each with the
/// chunk's exact size.
pub proof fn lemma_place_chunks_sizes(
    nodes: Seq<NodeV>,
    stores: Seq<NodeStoreV>,
    pieces: Seq<Seq<u8>>,
    next: nat,
)
    requires
        place_chunks(nodes, stores, pieces, next).ok,
        forall|j: int| 0 <= j < pieces.len() ==> #[trigger] pieces[j].len() <= u64::MAX,
    ensures
        place_chunks(nodes, stores, pieces, next).infos.len() == pieces.len(),
        forall|j: int|
            0 <= j < pieces.len() ==> #[trigger] place_chunks(
                nodes,
                stores,
                pieces,
                next,
            ).infos[j].size == pieces[j].len(),
        info_size_total(place_chunks(nodes, stores, pieces, next).infos) == crate::pipeline::piece_len_total(
            pieces,
        ),
    decreases pieces.len(),
{
    let pl = place_chunks(nodes, stores, pieces, next);
    if pieces.len() == 0 {
    } else {
        match first_fit(nodes, stores, pieces[0].len() as u64) {
            None => {},
            Some(i) => {
                let id = dec_str(next);
                let st = stores[i];
                let nd = nodes[i];
                let new_chunks = chunk_put(st.chunks, id, pieces[0]);
                let new_used = store_used(new_chunks);
                let new_avail: u64 = if 0 <= new_used <= nd.total_space {
                    (nd.total_space - new_used) as u64
                } else {
                    0
                };
                let nodes2 = nodes.update(i, NodeV { available_space: new_avail, ..nd });
                let stores2 = stores.update(
                    i,
                    NodeStoreV { node_id: st.node_id, chunks: new_chunks },
                );
                assert forall|j: int| 0 <= j < pieces.drop_first().len() implies #[trigger]
                    pieces.drop_first()[j].len() <= u64::MAX by {
                    assert(pieces.drop_first()[j] == pieces[j + 1]);
                }
                lemma_place_chunks_sizes(nodes2, stores2, pieces.drop_first(), next + 1);
                let rest = place_chunks(nodes2, stores2, pieces.drop_first(), next + 1);
                let info = ChunkInfoV {
                    chunk_id: id,
                    node_id: nd.id,
                    size: pieces[0].len() as u64,
                    hash: sha256_of(pieces[0]),
                };
                assert(pl.infos == seq![info] + rest.infos);
                assert(pl.infos[0] == info);
                assert(pl.infos.drop_first() =~= rest.infos);
                assert forall|j: int| 0 <= j < pieces.len() implies #[trigger] pl.infos[j].size
                    == pieces[j].len() by {
                    if j > 0 {
                        assert(pl.infos[j] == rest.infos[j - 1]);
                        assert(pieces.drop_first()[j - 1] == pieces[j]);
                    }
                }
            },
        }
    }
}

} // verus!
