//! DevilStorage node bookkeeping: content identifiers, capacity accounting
//! and the file index. Reading and writing the files themselves is left to
//! the caller, which runs these steps around its disk I/O.

use vstd::prelude::*;
use crate::crypto::{sha256_hex, sha256_hex_spec};
use crate::strmap::{StrMap, lookup, has_key, map_of};

verus! {

#[derive(Debug, Clone)]
pub struct FileMetadata {
    pub cid: String,
    pub file_name: String,
    pub size_bytes: u64,
    pub owner: String,
    pub uploaded_at: u64,
    pub is_public: bool,
    pub chunk_count: u32,
    pub replicas: u8,
}

#[derive(Debug, Clone)]
pub struct FileChunk {
    pub cid: String,
    pub chunk_index: u32,
    pub data_hash: String,
    pub size: u32,
}

/// `dvl1` followed by the hex SHA-256 of the content.
pub open spec fn cid_spec(data: Seq<u8>) -> Seq<char> {
    "dvl1"@ + sha256_hex_spec(data)
}

pub struct DevilStorageNode {
    pub node_address: String,
    pub storage_path: String,
    pub metadata: StrMap<FileMetadata>,
    pub capacity_bytes: u64,
    pub used_bytes: u64,
}

impl DevilStorageNode {
    pub open spec fn wf(&self) -> bool {
        self.metadata.wf()
    }

    /// A node with `capacity_gb` GiB of room and no files.
    pub fn new(node_address: &str, storage_path: &str, capacity_gb: u64) -> (r: Self)
        requires
            capacity_gb * 1024 * 1024 * 1024 <= u64::MAX,
        ensures
            r.wf(),
            r.node_address@ == node_address@,
            r.storage_path@ == storage_path@,
            r.metadata@.len() == 0,
            r.capacity_bytes == capacity_gb * 1024 * 1024 * 1024,
            r.used_bytes == 0,
    {
        DevilStorageNode {
            node_address: node_address.to_owned(),
            storage_path: storage_path.to_owned(),
            metadata: StrMap::new(),
            capacity_bytes: capacity_gb * 1024 * 1024 * 1024,
            used_bytes: 0,
        }
    }

    /// The content identifier of `data`.
    pub fn compute_cid(data: &[u8]) -> (cid: String)
        ensures
            cid@ == cid_spec(data@),
    {
        let mut cid = String::new();
        cid.append("dvl1");
        let h = sha256_hex(data);
        cid.append(h.as_str());
        cid
    }

    /// First step of storing `data`: its identifier, or the refusal when the
    /// node has no room for it.
    pub fn plan_store(&self, data: &[u8]) -> (r: Result<String, &'static str>)
        requires
            self.used_bytes + data@.len() <= u64::MAX,
        ensures
            self.used_bytes + data@.len() > self.capacity_bytes ==> r == Err::<String, &'static str>("Storage node full"),
            self.used_bytes + data@.len() <= self.capacity_bytes ==> (r matches Ok(cid) && cid@ == cid_spec(data@)),
    {
        let cid = Self::compute_cid(data);
        if self.used_bytes + data.len() as u64 > self.capacity_bytes {
            return Err("Storage node full");
        }
        Ok(cid)
    }

    /// Last step of storing a file once its bytes are on disk: records its
    /// metadata under `cid` (replacing any record there) and counts its size.
    pub fn commit_store(&mut self, cid: String, size: u64, file_name: &str, owner: &str, is_public: bool, uploaded_at: u64)
        requires
            old(self).wf(),
            old(self).used_bytes + size <= u64::MAX,
        ensures
            final(self).wf(),
            final(self).used_bytes == old(self).used_bytes + size,
            final(self).capacity_bytes == old(self).capacity_bytes,
            final(self).node_address == old(self).node_address,
            final(self).storage_path == old(self).storage_path,
            map_of(final(self).metadata@) == map_of(old(self).metadata@).insert(cid@, map_of(final(self).metadata@)[cid@]),
            ({
                let m = map_of(final(self).metadata@)[cid@];
                &&& m.cid@ == cid@
                &&& m.file_name@ == file_name@
                &&& m.size_bytes == size
                &&& m.owner@ == owner@
                &&& m.uploaded_at == uploaded_at
                &&& m.is_public == is_public
                &&& m.chunk_count == 1
                &&& m.replicas == 1
            }),
    {
        let meta = FileMetadata {
            cid: cid.clone(),
            file_name: file_name.to_owned(),
            size_bytes: size,
            owner: owner.to_owned(),
            uploaded_at,
            is_public,
            chunk_count: 1,
            replicas: 1,
        };
        self.used_bytes = self.used_bytes + size;
        self.metadata.insert(cid, meta);
    }

    /// The record of `cid`, if the node holds it.
    pub fn lookup_file(&self, cid: &str) -> (r: Option<&FileMetadata>)
        requires
            self.wf(),
        ensures
            match r {
                Some(m) => lookup(self.metadata@, cid@) == Some(*m),
                None => lookup(self.metadata@, cid@) is None,
            },
    {
        self.metadata.get(cid)
    }

    /// First step of deleting `cid`: takes its record out of the index.
    pub fn remove_record(&mut self, cid: &str) -> (r: Option<FileMetadata>)
        requires
            old(self).wf(),
        ensures
            final(self).wf(),
            r == lookup(old(self).metadata@, cid@),
            map_of(final(self).metadata@) == map_of(old(self).metadata@).remove(cid@),
            final(self).used_bytes == old(self).used_bytes,
            final(self).capacity_bytes == old(self).capacity_bytes,
    {
        self.metadata.remove(cid)
    }

    /// Last step of deleting a file once it is off the disk: frees its size.
    pub fn release_bytes(&mut self, size: u64)
        ensures
            final(self).used_bytes == crate::tokenomics::sat_sub(old(self).used_bytes as int, size as int),
            final(self).capacity_bytes == old(self).capacity_bytes,
            final(self).metadata@ == old(self).metadata@,
    {
        self.used_bytes = self.used_bytes.saturating_sub(size);
    }

    /// Number of files the node holds.
    pub fn file_count(&self) -> (n: usize)
        ensures
            n == self.metadata@.len(),
    {
        self.metadata.len()
    }
}

// ── Laws ─────────────────────────────────────────────────────────────────────

/// Deleting a stored file undoes the store: its record leaves the index as
/// if it had never been written over, and freeing its size gives back
/// exactly the space storing it took.
pub proof fn law_delete_undoes_store(index: Map<Seq<char>, FileMetadata>, cid: Seq<char>, meta: FileMetadata, used: u64, size: u64)
    requires
        used + size <= u64::MAX,
    ensures
        index.insert(cid, meta).remove(cid) == index.remove(cid),
        crate::tokenomics::sat_sub((used + size) as int, size as int) == used,
{
    assert(index.insert(cid, meta).remove(cid) =~= index.remove(cid));
}

} // verus!
