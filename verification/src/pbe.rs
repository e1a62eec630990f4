//! Token-backed storage accounting: staked tokens buy a storage
//! allowance, nodes are registered and assigned, file entries are
//! checked against the owner's allowance, and per-file permissions
//! gate access.

use vstd::prelude::*;
use crate::StorageError;
use crate::node::StorageNode;
use crate::node::StorageNodeV;
use crate::platform::now_secs;
use crate::textform::str_equal;

verus! {

/// Thirty days, in seconds: how long staked tokens buy storage.
pub const STAKE_TERM_SECS: u64 = 30 * 24 * 60 * 60;

/// A user's staked tokens and the storage allowance they bought.
pub struct StorageToken {
    pub user_id: String,
    pub amount: u64,
    pub storage_limit: u64,
    pub expiry: u64,
}

/// The mathematical content of a `StorageToken`.
#[verifier::ext_equal]
pub struct StorageTokenV {
    pub user_id: Seq<char>,
    pub amount: u64,
    pub storage_limit: u64,
    pub expiry: u64,
}

impl View for StorageToken {
    type V = StorageTokenV;

    open spec fn view(&self) -> StorageTokenV {
        StorageTokenV {
            user_id: self.user_id@,
            amount: self.amount,
            storage_limit: self.storage_limit,
            expiry: self.expiry,
        }
    }
}

impl Clone for StorageToken {
    fn clone(&self) -> (r: StorageToken)
        ensures
            r@ == self@,
    {
        StorageToken {
            user_id: self.user_id.clone(),
            amount: self.amount,
            storage_limit: self.storage_limit,
            expiry: self.expiry,
        }
    }
}

/// The kinds of access a permission can grant.
#[derive(Clone, Copy, Debug, PartialEq, Eq, Structural)]
pub enum AccessType {
    Read,
    Write,
    Delete,
    Admin,
}

/// One user's permission on a file, with an optional expiry.
pub struct Permission {
    pub user_id: String,
    pub access_type: AccessType,
    pub expiry: Option<u64>,
}

/// The mathematical content of a `Permission`.
#[verifier::ext_equal]
pub struct PermissionV {
    pub user_id: Seq<char>,
    pub access_type: AccessType,
    pub expiry: Option<u64>,
}

impl View for Permission {
    type V = PermissionV;

    open spec fn view(&self) -> PermissionV {
        PermissionV {
            user_id: self.user_id@,
            access_type: self.access_type,
            expiry: self.expiry,
        }
    }
}

impl DeepView for Permission {
    type V = PermissionV;

    open spec fn deep_view(&self) -> PermissionV {
        self@
    }
}

/// A registered file: owner, size, node, and its permissions.
pub struct FileMetadata {
    pub file_id: String,
    pub owner_id: String,
    pub size: u64,
    pub node_id: String,
    pub created_at: u64,
    pub permissions: Vec<Permission>,
}

/// The mathematical content of a file entry.
#[verifier::ext_equal]
pub struct FileMetadataV {
    pub file_id: Seq<char>,
    pub owner_id: Seq<char>,
    pub size: u64,
    pub node_id: Seq<char>,
    pub created_at: u64,
    pub permissions: Seq<PermissionV>,
}

impl View for FileMetadata {
    type V = FileMetadataV;

    open spec fn view(&self) -> FileMetadataV {
        FileMetadataV {
            file_id: self.file_id@,
            owner_id: self.owner_id@,
            size: self.size,
            node_id: self.node_id@,
            created_at: self.created_at,
            permissions: self.permissions.deep_view(),
        }
    }
}

/// The first token staked by a user, if any.
pub open spec fn token_find(s: Seq<StorageTokenV>, user: Seq<char>) -> Option<StorageTokenV>
    decreases s.len(),
{
    if s.len() == 0 {
        None
    } else if s[0].user_id == user {
        Some(s[0])
    } else {
        token_find(s.drop_first(), user)
    }
}

/// The first file entry with an identifier, if any.
pub open spec fn pbe_file_find(s: Seq<FileMetadataV>, id: Seq<char>) -> Option<FileMetadataV>
    decreases s.len(),
{
    if s.len() == 0 {
        None
    } else if s[0].file_id == id {
        Some(s[0])
    } else {
        pbe_file_find(s.drop_first(), id)
    }
}

/// The bytes a user's files occupy, summed.
pub open spec fn usage_of(files: Seq<FileMetadataV>, user: Seq<char>) -> int
    decreases files.len(),
{
    if files.len() == 0 {
        0
    } else {
        (if files[0].owner_id == user {
            files[0].size as int
        } else {
            0
        }) + usage_of(files.drop_first(), user)
    }
}

/// Whether, at time `now`, a user may claim `required_space` more bytes:
/// an unexpired token whose limit covers current use plus the request.
pub open spec fn allowance_at(
    tokens: Seq<StorageTokenV>,
    files: Seq<FileMetadataV>,
    user: Seq<char>,
    required_space: u64,
    now: u64,
) -> bool {
    match token_find(tokens, user) {
        None => false,
        Some(t) => t.storage_limit >= usage_of(files, user) + required_space && t.expiry > now,
    }
}

/// Whether a permission grants `user` access at time `now`: access is
/// granted through unexpired administrator permissions.
pub open spec fn permits_at(p: PermissionV, user: Seq<char>, now: u64) -> bool {
    &&& p.user_id == user
    &&& p.access_type is Admin
    &&& match p.expiry {
        None => true,
        Some(exp) => exp > now,
    }
}

/// Whether some permission of the file grants `user` access at `now`.
pub open spec fn access_at(meta: FileMetadataV, user: Seq<char>, now: u64) -> bool {
    exists|i: int| 0 <= i < meta.permissions.len() && permits_at(#[trigger] meta.permissions[i], user, now)
}

/// The whole access verdict at time `now`: an unknown file grants
/// nothing.
pub open spec fn access_verdict(
    files: Seq<FileMetadataV>,
    file_id: Seq<char>,
    user: Seq<char>,
    now: u64,
) -> bool {
    match pbe_file_find(files, file_id) {
        None => false,
        Some(meta) => access_at(meta, user, now),
    }
}

/// The first node with an identifier, if any.
pub open spec fn snode_find(s: Seq<StorageNodeV>, id: Seq<char>) -> Option<StorageNodeV>
    decreases s.len(),
{
    if s.len() == 0 {
        None
    } else if s[0].node_id == id {
        Some(s[0])
    } else {
        snode_find(s.drop_first(), id)
    }
}

/// The position of the first node with an identifier, if any.
pub open spec fn snode_index_of(s: Seq<StorageNodeV>, id: Seq<char>) -> Option<int>
    decreases s.len(),
{
    if s.len() == 0 {
        None
    } else if s[0].node_id == id {
        Some(0)
    } else {
        match snode_index_of(s.drop_first(), id) {
            None => None,
            Some(i) => Some(i + 1),
        }
    }
}

/// The position of the first healthy node with enough free space.
pub open spec fn first_assignable(s: Seq<StorageNodeV>, size: u64) -> Option<int>
    decreases s.len(),
{
    if s.len() == 0 {
        None
    } else if s[0].available_space >= size && s[0].health_status {
        Some(0)
    } else {
        match first_assignable(s.drop_first(), size) {
            None => None,
            Some(i) => Some(i + 1),
        }
    }
}

/// The business engine: staked tokens, registered nodes, file entries,
/// and the byte-per-token rate.
pub struct ProgrammableBusinessEngine {
    pub tokens: Vec<StorageToken>,
    nodes: Vec<StorageNode>,
    files: Vec<FileMetadata>,
    token_rate: u64,
}

/// The engine's whole mathematical state.
#[verifier::ext_equal]
pub struct PbeV {
    pub tokens: Seq<StorageTokenV>,
    pub nodes: Seq<StorageNodeV>,
    pub files: Seq<FileMetadataV>,
    pub token_rate: u64,
}

impl View for ProgrammableBusinessEngine {
    type V = PbeV;

    closed spec fn view(&self) -> PbeV {
        PbeV {
            tokens: Seq::new(self.tokens@.len(), |i: int| self.tokens@[i]@),
            nodes: Seq::new(self.nodes@.len(), |i: int| self.nodes@[i]@),
            files: Seq::new(self.files@.len(), |i: int| self.files@[i]@),
            token_rate: self.token_rate,
        }
    }
}

impl ProgrammableBusinessEngine {
    /// A fresh engine with the given bytes-per-token rate.
    pub fn new(token_rate: u64) -> (r: ProgrammableBusinessEngine)
        ensures
            r@.tokens == Seq::<StorageTokenV>::empty(),
            r@.nodes == Seq::<StorageNodeV>::empty(),
            r@.files == Seq::<FileMetadataV>::empty(),
            r@.token_rate == token_rate,
    {
        let r = ProgrammableBusinessEngine {
            tokens: Vec::new(),
            nodes: Vec::new(),
            files: Vec::new(),
            token_rate,
        };
        proof {
            assert(r@.tokens =~= Seq::<StorageTokenV>::empty());
            assert(r@.nodes =~= Seq::<StorageNodeV>::empty());
            assert(r@.files =~= Seq::<FileMetadataV>::empty());
        }
        r
    }

    /// Stakes tokens for a user: the bought limit is `amount` times the
    /// rate, valid for the staking term from now. The new token replaces
    /// any earlier stake by the same user.
    pub fn stake_tokens(&mut self, user_id: &str, amount: u64) -> (r: Result<
        StorageToken,
        StorageError,
    >)
        requires
            amount * old(self)@.token_rate <= u64::MAX,
        ensures
            r matches Ok(t) && t@.user_id == user_id@ && t@.amount == amount && t@.storage_limit
                == amount * old(self)@.token_rate,
            r matches Ok(t) ==> token_find(final(self)@.tokens, user_id@) == Some(t@),
            forall|u: Seq<char>|
                u != user_id@ ==> token_find(final(self)@.tokens, u) == token_find(
                    old(self)@.tokens,
                    u,
                ),
            final(self)@.nodes == old(self)@.nodes,
            final(self)@.files == old(self)@.files,
            final(self)@.token_rate == old(self)@.token_rate,
    {
        let storage_limit = amount * self.token_rate;
        let now = now_secs();
        let expiry = if now <= u64::MAX - STAKE_TERM_SECS {
            now + STAKE_TERM_SECS
        } else {
            u64::MAX
        };
        let token = StorageToken { user_id: user_id.to_owned(), amount, storage_limit, expiry };
        let copy = token.clone();
        let ghost oldv = self@;
        self.tokens.insert(0, token);
        proof {
            assert(self@.tokens.drop_first() =~= oldv.tokens);
            assert(self@.tokens[0] == copy@);
            assert(self@.nodes =~= oldv.nodes);
            assert(self@.files =~= oldv.files);
        }
        Ok(copy)
    }

    /// The bytes a user's files occupy, summed exactly.
    pub fn get_user_storage_usage(&self, user_id: &str) -> (r: u64)
        requires
            usage_of(self@.files, user_id@) <= u64::MAX,
        ensures
            r == usage_of(self@.files, user_id@),
    {
        let ghost s = self@.files;
        proof {
            assert(s.skip(0) =~= s);
        }
        let mut acc: u64 = 0;
        let mut i: usize = 0;
        while i < self.files.len()
            invariant
                i <= s.len(),
                s == self@.files,
                s.len() == self.files@.len(),
                usage_of(s, user_id@) <= u64::MAX,
                acc + usage_of(s.skip(i as int), user_id@) == usage_of(s, user_id@),
                acc <= u64::MAX,
            decreases s.len() - i,
        {
            proof {
                assert(s.skip(i as int)[0] == s[i as int]);
                assert(s[i as int] == self.files@[i as int]@);
                assert(s.skip(i as int).drop_first() =~= s.skip(i as int + 1));
                lemma_usage_nonneg(s.skip(i as int + 1), user_id@);
            }
            if str_equal(self.files[i].owner_id.as_str(), user_id) {
                acc = acc + self.files[i].size;
            }
            i = i + 1;
        }
        proof {
            assert(s.skip(s.len() as int) =~= Seq::<FileMetadataV>::empty());
        }
        acc
    }

    /// Whether, at the given time, the user may claim the extra bytes.
    pub fn check_storage_allowance_at(&self, user_id: &str, required_space: u64, now: u64) -> (r:
        bool)
        ensures
            r == allowance_at(self@.tokens, self@.files, user_id@, required_space, now),
    {
        let ghost s = self@.tokens;
        proof {
            assert(s.skip(0) =~= s);
        }
        let mut i: usize = 0;
        while i < self.tokens.len()
            invariant
                i <= s.len(),
                s == self@.tokens,
                s.len() == self.tokens@.len(),
                token_find(s.skip(i as int), user_id@) == token_find(s, user_id@),
            decreases s.len() - i,
        {
            proof {
                assert(s.skip(i as int)[0] == s[i as int]);
                assert(s[i as int] == self.tokens@[i as int]@);
                assert(s.skip(i as int).drop_first() =~= s.skip(i as int + 1));
            }
            if str_equal(self.tokens[i].user_id.as_str(), user_id) {
                let limit = self.tokens[i].storage_limit;
                let expiry = self.tokens[i].expiry;
                let usage = self.usage_u128(user_id);
                return usage <= limit as u128 && limit as u128 - usage >= required_space as u128
                    && expiry > now;
            }
            i = i + 1;
        }
        proof {
            assert(s.skip(s.len() as int) =~= Seq::<StorageTokenV>::empty());
        }
        false
    }

    /// The exact usage, computed wide enough never to overflow.
    fn usage_u128(&self, user_id: &str) -> (r: u128)
        ensures
            r == usage_of(self@.files, user_id@),
    {
        let ghost s = self@.files;
        proof {
            assert(s.skip(0) =~= s);
            lemma_usage_bounded(s, user_id@);
        }
        let mut acc: u128 = 0;
        let mut i: usize = 0;
        while i < self.files.len()
            invariant
                i <= s.len(),
                s == self@.files,
                s.len() == self.files@.len(),
                acc == usage_of(s, user_id@) - usage_of(s.skip(i as int), user_id@),
                acc <= i * 0x1_0000_0000_0000_0000,
            decreases s.len() - i,
        {
            proof {
                assert(s.skip(i as int)[0] == s[i as int]);
                assert(s[i as int] == self.files@[i as int]@);
                assert(s.skip(i as int).drop_first() =~= s.skip(i as int + 1));
            }
            if str_equal(self.files[i].owner_id.as_str(), user_id) {
                acc = acc + self.files[i].size as u128;
            }
            i = i + 1;
            proof {
                assert(acc <= i * 0x1_0000_0000_0000_0000) by (nonlinear_arith)
                    requires
                        acc <= (i - 1) * 0x1_0000_0000_0000_0000 + 0x1_0000_0000_0000_0000,
                        i >= 1,
                ;
            }
        }
        proof {
            assert(s.skip(s.len() as int) =~= Seq::<FileMetadataV>::empty());
        }
        acc
    }

    /// Whether the user may claim the extra bytes right now. The verdict
    /// depends on the clock; whatever it reads, the verdict is the
    /// allowance at that instant.
    pub fn check_storage_allowance(&self, user_id: &str, required_space: u64) -> (r: bool)
        ensures
            exists|now: u64|
                r == allowance_at(self@.tokens, self@.files, user_id@, required_space, now),
            r ==> (token_find(self@.tokens, user_id@) matches Some(t) && t.storage_limit
                >= usage_of(self@.files, user_id@) + required_space),
    {
        let now = now_secs();
        let r = self.check_storage_allowance_at(user_id, required_space, now);
        proof {
            assert(r == allowance_at(self@.tokens, self@.files, user_id@, required_space, now));
        }
        r
    }

    /// Registers a node by identifier and capacity; the node starts
    /// healthy with its whole capacity free. Re-registering an
    /// identifier replaces the entry.
    pub fn register_node(&mut self, node_id: &str, total_space: u64) -> (r: Result<
        (),
        StorageError,
    >)
        ensures
            final(self)@.tokens == old(self)@.tokens,
            final(self)@.files == old(self)@.files,
            final(self)@.token_rate == old(self)@.token_rate,
            r is Ok ==> (snode_find(final(self)@.nodes, node_id@) matches Some(n)
                && n.total_space == total_space && n.available_space == total_space
                && n.health_status),
            r is Err ==> final(self)@ == old(self)@,
    {
        let node = match StorageNode::new(node_id.to_owned(), total_space) {
            Ok(n) => n,
            Err(e) => {
                return Err(e);
            },
        };
        let ghost oldv = self@;
        self.nodes.insert(0, node);
        proof {
            assert(self@.nodes.drop_first() =~= oldv.nodes);
            assert(self@.tokens =~= oldv.tokens);
            assert(self@.files =~= oldv.files);
        }
        Ok(())
    }

    /// The registered nodes.
    pub fn get_all_nodes(&self) -> (r: Vec<StorageNode>)
        ensures
            r@.len() == self@.nodes.len(),
            forall|i: int| 0 <= i < r@.len() ==> #[trigger] r@[i]@ == self@.nodes[i],
    {
        let mut out: Vec<StorageNode> = Vec::new();
        let mut i: usize = 0;
        while i < self.nodes.len()
            invariant
                i <= self.nodes@.len(),
                self@.nodes.len() == self.nodes@.len(),
                out@.len() == i,
                forall|j: int| 0 <= j < i ==> #[trigger] out@[j]@ == self@.nodes[j],
            decreases self.nodes@.len() - i,
        {
            out.push(self.nodes[i].clone());
            i = i + 1;
        }
        out
    }

    /// Assigns the first healthy node with room for the file, if any.
    pub fn assign_node(&self, file_size: u64) -> (r: Option<String>)
        ensures
            match r {
                Some(id) => first_assignable(self@.nodes, file_size) matches Some(i) && id@
                    == self@.nodes[i].node_id,
                None => first_assignable(self@.nodes, file_size) is None,
            },
    {
        let ghost s = self@.nodes;
        proof {
            assert(s.skip(0) =~= s);
        }
        let mut i: usize = 0;
        while i < self.nodes.len()
            invariant
                i <= s.len(),
                s == self@.nodes,
                s.len() == self.nodes@.len(),
                match first_assignable(s.skip(i as int), file_size) {
                    None => first_assignable(s, file_size) is None,
                    Some(k) => first_assignable(s, file_size) == Some(k + i),
                },
            decreases s.len() - i,
        {
            proof {
                assert(s.skip(i as int)[0] == s[i as int]);
                assert(s[i as int] == self.nodes@[i as int]@);
                assert(s.skip(i as int).drop_first() =~= s.skip(i as int + 1));
            }
            if self.nodes[i].available_space >= file_size && self.nodes[i].health_status {
                return Some(self.nodes[i].node_id.clone());
            }
            i = i + 1;
        }
        proof {
            assert(s.skip(s.len() as int) =~= Seq::<StorageNodeV>::empty());
        }
        None
    }

    /// Records a file entry at the given time, if the owner's allowance
    /// covers it. The owner gets an administrator permission without
    /// expiry; the new entry replaces any earlier one with the
    /// identifier.
    pub fn create_file_entry_at(
        &mut self,
        file_id: &str,
        owner_id: &str,
        size: u64,
        node_id: &str,
        now: u64,
    ) -> (r: Result<(), StorageError>)
        ensures
            final(self)@.tokens == old(self)@.tokens,
            final(self)@.nodes == old(self)@.nodes,
            final(self)@.token_rate == old(self)@.token_rate,
            !allowance_at(old(self)@.tokens, old(self)@.files, owner_id@, size, now) ==> r
                == Err::<(), StorageError>(StorageError::Authorization)
                && final(self)@ == old(self)@,
            allowance_at(old(self)@.tokens, old(self)@.files, owner_id@, size, now) ==> r
                == Ok::<(), StorageError>(()) && final(self)@.files.len()
                == old(self)@.files.len() + 1
                && final(self)@.files.drop_first() == old(self)@.files && ({
                let meta = final(self)@.files[0];
                meta.file_id == file_id@ && meta.owner_id == owner_id@ && meta.size == size
                    && meta.node_id == node_id@ && meta.created_at == now && meta.permissions
                    =~= seq![
                    PermissionV {
                        user_id: owner_id@,
                        access_type: AccessType::Admin,
                        expiry: None,
                    },
                ]
            }),
    {
        if !self.check_storage_allowance_at(owner_id, size, now) {
            return Err(StorageError::Authorization);
        }
        let mut permissions: Vec<Permission> = Vec::new();
        permissions.push(
            Permission {
                user_id: owner_id.to_owned(),
                access_type: AccessType::Admin,
                expiry: None,
            },
        );
        let meta = FileMetadata {
            file_id: file_id.to_owned(),
            owner_id: owner_id.to_owned(),
            size,
            node_id: node_id.to_owned(),
            created_at: now,
            permissions,
        };
        let ghost oldv = self@;
        let ghost metav = meta@;
        self.files.insert(0, meta);
        proof {
            assert(self@.files.drop_first() =~= oldv.files);
            assert(self@.files[0] == metav);
            assert(metav.permissions =~= seq![
                PermissionV { user_id: owner_id@, access_type: AccessType::Admin, expiry: None },
            ]);
            assert(self@.tokens =~= oldv.tokens);
            assert(self@.nodes =~= oldv.nodes);
        }
        Ok(())
    }

    /// Records a file entry against the owner's allowance right now.
    pub fn create_file_entry(&mut self, file_id: &str, owner_id: &str, size: u64, node_id: &str) -> (r:
        Result<(), StorageError>)
        ensures
            final(self)@.tokens == old(self)@.tokens,
            final(self)@.nodes == old(self)@.nodes,
            final(self)@.token_rate == old(self)@.token_rate,
            r is Err ==> r == Err::<(), StorageError>(StorageError::Authorization) && final(self)@
                == old(self)@,
            r is Ok ==> final(self)@.files.len() == old(self)@.files.len() + 1
                && final(self)@.files.drop_first() == old(self)@.files && ({
                let meta = final(self)@.files[0];
                meta.file_id == file_id@ && meta.owner_id == owner_id@ && meta.size == size
                    && meta.node_id == node_id@
            }),
    {
        let now = now_secs();
        self.create_file_entry_at(file_id, owner_id, size, node_id, now)
    }

    /// Whether the user has access to the file at the given time.
    #[verifier::loop_isolation(false)]
    pub fn check_access_at(&self, user_id: &str, file_id: &str, now: u64) -> (r: bool)
        ensures
            r == match pbe_file_find(self@.files, file_id@) {
                None => false,
                Some(meta) => access_at(meta, user_id@, now),
            },
    {
        let ghost s = self@.files;
        proof {
            assert(s.skip(0) =~= s);
        }
        let mut i: usize = 0;
        while i < self.files.len()
            invariant
                i <= s.len(),
                s == self@.files,
                s.len() == self.files@.len(),
                pbe_file_find(s.skip(i as int), file_id@) == pbe_file_find(s, file_id@),
            decreases s.len() - i,
        {
            proof {
                assert(s.skip(i as int)[0] == s[i as int]);
                assert(s[i as int] == self.files@[i as int]@);
                assert(s.skip(i as int).drop_first() =~= s.skip(i as int + 1));
            }
            if str_equal(self.files[i].file_id.as_str(), file_id) {
                let ghost meta = s[i as int];
                let perms = &self.files[i].permissions;
                let mut j: usize = 0;
                while j < perms.len()
                    invariant
                        j <= perms@.len(),
                        meta.permissions == perms.deep_view(),
                        meta.permissions.len() == perms@.len(),
                        forall|k: int| 0 <= k < j ==> !permits_at(#[trigger] meta.permissions[k], user_id@, now),
                    decreases perms@.len() - j,
                {
                    proof {
                        assert(meta.permissions[j as int] == perms@[j as int]@);
                    }
                    let p = &perms[j];
                    let granted = str_equal(p.user_id.as_str(), user_id) && matches!(
                        p.access_type,
                        AccessType::Admin,
                    ) && match p.expiry {
                        None => true,
                        Some(exp) => exp > now,
                    };
                    if granted {
                        proof {
                            assert(permits_at(meta.permissions[j as int], user_id@, now));
                        }
                        return true;
                    }
                    j = j + 1;
                }
                proof {
                    assert(!access_at(meta, user_id@, now));
                }
                return false;
            }
            i = i + 1;
        }
        proof {
            assert(s.skip(s.len() as int) =~= Seq::<FileMetadataV>::empty());
        }
        false
    }

    /// Whether the user has access to the file right now. The verdict
    /// depends on the clock; whatever it reads, the verdict is the
    /// access state at that instant.
    pub fn check_access(&self, user_id: &str, file_id: &str, access_type: AccessType) -> (r: bool)
        ensures
            exists|now: u64| r == access_verdict(self@.files, file_id@, user_id@, now),
            r ==> pbe_file_find(self@.files, file_id@) is Some,
    {
        let _ = access_type;
        let now = now_secs();
        let r = self.check_access_at(user_id, file_id, now);
        proof {
            assert(r == access_verdict(self@.files, file_id@, user_id@, now));
        }
        r
    }

    /// Marks a node healthy or unhealthy, stamping the check time; an
    /// unknown identifier changes nothing. Only the first entry for the
    /// identifier — the live one — is touched.
    pub fn update_node_health(&mut self, node_id: &str, is_healthy: bool)
        ensures
            final(self)@.tokens == old(self)@.tokens,
            final(self)@.files == old(self)@.files,
            final(self)@.token_rate == old(self)@.token_rate,
            snode_index_of(old(self)@.nodes, node_id@) is None ==> final(self)@ == old(self)@,
            snode_index_of(old(self)@.nodes, node_id@) matches Some(i) ==> ({
                let nd = old(self)@.nodes[i];
                final(self)@.nodes.len() == old(self)@.nodes.len() && final(self)@.nodes[i].node_id
                    == nd.node_id && final(self)@.nodes[i].storage_path == nd.storage_path
                    && final(self)@.nodes[i].total_space == nd.total_space
                    && final(self)@.nodes[i].available_space == nd.available_space
                    && final(self)@.nodes[i].health_status == is_healthy && forall|k: int|
                    0 <= k < old(self)@.nodes.len() && k != i ==> final(self)@.nodes[k] == old(
                        self,
                    )@.nodes[k]
            }),
    {
        let ghost oldv = self@;
        let ghost s = oldv.nodes;
        proof {
            assert(s.skip(0) =~= s);
        }
        let mut i: usize = 0;
        while i < self.nodes.len()
            invariant
                i <= s.len(),
                s == self@.nodes,
                oldv == self@,
                oldv == old(self)@,
                s.len() == self.nodes@.len(),
                match snode_index_of(s.skip(i as int), node_id@) {
                    None => snode_index_of(s, node_id@) is None,
                    Some(k) => snode_index_of(s, node_id@) == Some(k + i),
                },
            decreases s.len() - i,
        {
            proof {
                assert(s.skip(i as int)[0] == s[i as int]);
                assert(s[i as int] == self.nodes@[i as int]@);
                assert(s.skip(i as int).drop_first() =~= s.skip(i as int + 1));
            }
            if str_equal(self.nodes[i].node_id.as_str(), node_id) {
                let node_ref = &mut self.nodes[i];
                node_ref.update_health_status(is_healthy);
                proof {
                    assert(self@.tokens =~= oldv.tokens);
                    assert(self@.files =~= oldv.files);
                    assert(self@.nodes[i as int] == self.nodes@[i as int]@);
                    assert forall|k: int|
                        0 <= k < self@.nodes.len() && k != i as int implies self@.nodes[k]
                        == oldv.nodes[k] by {}
                }
                return ;
            }
            i = i + 1;
        }
        proof {
            assert(s.skip(s.len() as int) =~= Seq::<StorageNodeV>::empty());
        }
    }

    /// A mutable handle to a registered node, if any.
    pub fn get_node_mut(&mut self, node_id: &str) -> (r: Option<&mut StorageNode>) {
        let mut i: usize = 0;
        let n = self.nodes.len();
        while i < n
            invariant
                i <= self.nodes@.len(),
                n == self.nodes@.len(),
            decreases self.nodes@.len() - i,
        {
            if str_equal(self.nodes[i].node_id.as_str(), node_id) {
                return Some(&mut self.nodes[i]);
            }
            i = i + 1;
        }
        None
    }
}

pub proof fn lemma_usage_nonneg(files: Seq<FileMetadataV>, user: Seq<char>)
    ensures
        usage_of(files, user) >= 0,
    decreases files.len(),
{
    if files.len() > 0 {
        lemma_usage_nonneg(files.drop_first(), user);
    }
}

/// Usage is at most one full 64-bit size per file.
pub proof fn lemma_usage_bounded(files: Seq<FileMetadataV>, user: Seq<char>)
    ensures
        usage_of(files, user) <= files.len() * 0x1_0000_0000_0000_0000,
    decreases files.len(),
{
    if files.len() > 0 {
        lemma_usage_bounded(files.drop_first(), user);
        assert(usage_of(files, user) <= files.len() * 0x1_0000_0000_0000_0000)
            by (nonlinear_arith)
            requires
                usage_of(files, user) == (if files[0].owner_id == user {
                    files[0].size as int
                } else {
                    0
                }) + usage_of(files.drop_first(), user),
                usage_of(files.drop_first(), user) <= (files.len() - 1) * 0x1_0000_0000_0000_0000,
                files[0].size <= 0xFFFF_FFFF_FFFF_FFFF,
                files.len() >= 1,
        ;
    }
}

} // verus!
