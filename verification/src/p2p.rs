//! The node registry: known storage peers and first-fit node selection.
//!
//! Nodes are kept in registration order. Re-adding an existing identifier
//! is a no-op: the registry never overwrites an entry.

use vstd::prelude::*;
use crate::textform::str_equal;

verus! {

/// One known storage peer.
pub struct Node {
    pub id: String,
    pub storage_path: String,
    pub address: String,
    pub total_space: u64,
    pub available_space: u64,
}

/// The mathematical content of a `Node`.
#[verifier::ext_equal]
pub struct NodeV {
    pub id: Seq<char>,
    pub storage_path: Seq<char>,
    pub address: Seq<char>,
    pub total_space: u64,
    pub available_space: u64,
}

impl View for Node {
    type V = NodeV;

    open spec fn view(&self) -> NodeV {
        NodeV {
            id: self.id@,
            storage_path: self.storage_path@,
            address: self.address@,
            total_space: self.total_space,
            available_space: self.available_space,
        }
    }
}

impl DeepView for Node {
    type V = NodeV;

    open spec fn deep_view(&self) -> NodeV {
        self@
    }
}

impl Clone for Node {
    fn clone(&self) -> (r: Node)
        ensures
            r@ == self@,
    {
        Node {
            id: self.id.clone(),
            storage_path: self.storage_path.clone(),
            address: self.address.clone(),
            total_space: self.total_space,
            available_space: self.available_space,
        }
    }
}

impl Node {
    /// A freshly registered node offers its whole capacity.
    pub fn new(id: String, storage_path: String, address: String, total_space: u64) -> (r: Node)
        ensures
            r@ == (NodeV {
                id: id@,
                storage_path: storage_path@,
                address: address@,
                total_space,
                available_space: total_space,
            }),
    {
        Node { id, storage_path, address, total_space, available_space: total_space }
    }

    /// Reduces the advertised free space by a stored file's size; a size
    /// beyond the free space leaves the node unchanged.
    pub fn update_available_space(&mut self, file_size: u64)
        ensures
            old(self).available_space >= file_size ==> final(self)@ == (NodeV {
                available_space: (old(self).available_space - file_size) as u64,
                ..old(self)@
            }),
            old(self).available_space < file_size ==> final(self)@ == old(self)@,
    {
        if self.available_space >= file_size {
            self.available_space = self.available_space - file_size;
        }
    }
}

/// The first node with the given identifier, if any.
pub open spec fn node_find(s: Seq<NodeV>, id: Seq<char>) -> Option<NodeV>
    decreases s.len(),
{
    if s.len() == 0 {
        None
    } else if s[0].id == id {
        Some(s[0])
    } else {
        node_find(s.drop_first(), id)
    }
}

/// The position of the first node that advertises at least `size` free
/// bytes, if any.
pub open spec fn first_with_space(s: Seq<NodeV>, size: u64) -> Option<int>
    decreases s.len(),
{
    if s.len() == 0 {
        None
    } else if s[0].available_space >= size {
        Some(0)
    } else {
        match first_with_space(s.drop_first(), size) {
            None => None,
            Some(i) => Some(i + 1),
        }
    }
}

/// The first node, in registration order, with room for a file of the
/// given size.
pub fn find_available_node(file_size: u64, nodes: &Vec<Node>) -> (r: Option<Node>)
    ensures
        match r {
            Some(n) => first_with_space(nodes.deep_view(), file_size) matches Some(i) && n@
                == nodes.deep_view()[i],
            None => first_with_space(nodes.deep_view(), file_size) is None,
        },
{
    let ghost s = nodes.deep_view();
    proof {
        assert(s.skip(0) =~= s);
    }
    let mut i: usize = 0;
    while i < nodes.len()
        invariant
            i <= s.len(),
            s == nodes.deep_view(),
            s.len() == nodes@.len(),
            forall|j: int| 0 <= j < i ==> s[j].available_space < file_size,
            match first_with_space(s.skip(i as int), file_size) {
                None => first_with_space(s, file_size) is None,
                Some(k) => first_with_space(s, file_size) == Some(k + i),
            },
        decreases s.len() - i,
    {
        proof {
            assert(s.skip(i as int)[0] == s[i as int]);
            assert(s[i as int] == nodes@[i as int]@);
            assert(s.skip(i as int).drop_first() =~= s.skip(i as int + 1));
        }
        if nodes[i].available_space >= file_size {
            return Some(nodes[i].clone());
        }
        i = i + 1;
    }
    proof {
        assert(s.skip(s.len() as int) =~= Seq::<NodeV>::empty());
    }
    None
}

/// The registry of known nodes, in registration order.
pub struct Network {
    nodes: Vec<Node>,
}

/// Distinct identifiers throughout.
pub open spec fn nodes_wf(s: Seq<NodeV>) -> bool {
    forall|i: int, j: int| 0 <= i < j < s.len() ==> s[i].id != s[j].id
}

impl View for Network {
    type V = Seq<NodeV>;

    closed spec fn view(&self) -> Seq<NodeV> {
        self.nodes.deep_view()
    }
}

/// When `node_find` reports no entry, no position holds the identifier.
pub proof fn lemma_node_find_none_means_absent(s: Seq<NodeV>, id: Seq<char>)
    requires
        node_find(s, id) is None,
    ensures
        forall|i: int| 0 <= i < s.len() ==> s[i].id != id,
    decreases s.len(),
{
    if s.len() > 0 {
        lemma_node_find_none_means_absent(s.drop_first(), id);
        assert forall|i: int| 0 <= i < s.len() implies s[i].id != id by {
            if i > 0 {
                assert(s.drop_first()[i - 1] == s[i]);
            }
        }
    }
}

impl Network {
    pub open spec fn wf(&self) -> bool {
        nodes_wf(self@)
    }

    /// An empty registry.
    pub fn new() -> (r: Network)
        ensures
            r.wf(),
            r@ == Seq::<NodeV>::empty(),
    {
        let r = Network { nodes: Vec::new() };
        proof {
            assert(r@ =~~= Seq::<NodeV>::empty());
        }
        r
    }

    /// The registered nodes, in registration order.
    pub fn get_nodes(&self) -> (r: Vec<Node>)
        ensures
            r.deep_view() == self@,
    {
        let mut out: Vec<Node> = Vec::new();
        let mut i: usize = 0;
        proof {
            assert(out.deep_view() =~~= self@.take(0));
        }
        while i < self.nodes.len()
            invariant
                i <= self.nodes@.len(),
                self@.len() == self.nodes@.len(),
                out.deep_view() == self@.take(i as int),
            decreases self.nodes@.len() - i,
        {
            let ghost before = out.deep_view();
            out.push(self.nodes[i].clone());
            proof {
                assert(out.deep_view() =~~= before.push(self.nodes@[i as int]@));
                assert(self@[i as int] == self.nodes@[i as int]@);
                assert(before.push(self@[i as int]) =~= self@.take(i as int + 1));
            }
            i = i + 1;
        }
        proof {
            assert(self@.take(self@.len() as int) =~= self@);
        }
        out
    }

    /// Registers a node. Re-adding an existing identifier is a no-op: the
    /// existing entry is kept.
    pub fn add_node(&mut self, node: Node)
        requires
            old(self).wf(),
        ensures
            final(self).wf(),
            node_find(old(self)@, node.id@) is Some ==> final(self)@ == old(self)@,
            node_find(old(self)@, node.id@) is None ==> final(self)@ == old(self)@.push(node@),
    {
        let ghost oldv = self@;
        let mut i: usize = 0;
        proof {
            assert(oldv.skip(0) =~= oldv);
        }
        while i < self.nodes.len()
            invariant
                i <= self.nodes@.len(),
                oldv == self@,
                oldv == old(self)@,
                old(self).wf(),
                oldv.len() == self.nodes@.len(),
                forall|j: int| 0 <= j < i ==> oldv[j].id != node.id@,
                node_find(oldv.skip(i as int), node.id@) == node_find(oldv, node.id@),
            decreases self.nodes@.len() - i,
        {
            proof {
                assert(oldv.skip(i as int)[0] == oldv[i as int]);
                assert(oldv[i as int] == self.nodes@[i as int]@);
                assert(oldv.skip(i as int).drop_first() =~= oldv.skip(i as int + 1));
            }
            if str_equal(self.nodes[i].id.as_str(), node.id.as_str()) {
                return ;
            }
            i = i + 1;
        }
        proof {
            assert(oldv.skip(oldv.len() as int) =~= Seq::<NodeV>::empty());
            assert(node_find(oldv, node.id@) is None);
        }
        let ghost nv = node@;
        self.nodes.push(node);
        proof {
            assert(self@ =~~= oldv.push(nv));
            lemma_node_find_none_means_absent(oldv, nv.id);
            assert forall|a: int, b: int| 0 <= a < b < self@.len() implies self@[a].id
                != self@[b].id by {
                if b < oldv.len() {
                    assert(oldv[a].id != oldv[b].id);
                }
            }
        }
    }

    /// How many nodes are registered.
    pub fn node_count(&self) -> (r: usize)
        ensures
            r == self@.len(),
    {
        self.nodes.len()
    }
}

} // verus!
