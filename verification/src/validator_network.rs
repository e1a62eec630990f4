//! Challenge bookkeeping across validated nodes: each node's last
//! response is recorded, and evaluating a challenge marks the node
//! valid exactly when its response hashes to the same digest as the
//! challenge. The waiting between challenge and evaluation is the
//! surrounding program's business.

use vstd::prelude::*;
use vstd::string::StringSliceAdditionalSpecFns;
use crate::bytes::bytes_eq;
use crate::crypto::sha256;
use crate::crypto::sha256_of;
use crate::textform::str_equal;

verus! {

/// One node's challenge state.
pub struct NodeState {
    pub node_id: String,
    pub last_response: Option<String>,
    pub is_valid: bool,
}

/// The mathematical content of a node's challenge state.
#[verifier::ext_equal]
pub struct NodeStateV {
    pub node_id: Seq<char>,
    pub last_response: Option<Seq<char>>,
    pub is_valid: bool,
}

impl View for NodeState {
    type V = NodeStateV;

    open spec fn view(&self) -> NodeStateV {
        NodeStateV {
            node_id: self.node_id@,
            last_response: match self.last_response {
                None => None,
                Some(ref r) => Some(r@),
            },
            is_valid: self.is_valid,
        }
    }
}

/// The position of the first state for an identifier, if any.
pub open spec fn state_index_of(s: Seq<NodeStateV>, id: Seq<char>) -> Option<int>
    decreases s.len(),
{
    if s.len() == 0 {
        None
    } else if s[0].node_id == id {
        Some(0)
    } else {
        match state_index_of(s.drop_first(), id) {
            None => None,
            Some(i) => Some(i + 1),
        }
    }
}

/// Whether a recorded response answers a challenge: their digests must
/// agree byte for byte.
pub open spec fn response_answers(response: Seq<u8>, challenge: Seq<u8>) -> bool {
    sha256_of(response) == sha256_of(challenge)
}

/// The validator's table of node challenge states.
pub struct ValidatorNetwork {
    nodes: Vec<NodeState>,
}

impl View for ValidatorNetwork {
    type V = Seq<NodeStateV>;

    closed spec fn view(&self) -> Seq<NodeStateV> {
        Seq::new(self.nodes@.len(), |i: int| self.nodes@[i]@)
    }
}

impl ValidatorNetwork {
    /// An empty table.
    pub fn new() -> (r: ValidatorNetwork)
        ensures
            r@ == Seq::<NodeStateV>::empty(),
    {
        let r = ValidatorNetwork { nodes: Vec::new() };
        proof {
            assert(r@ =~= Seq::<NodeStateV>::empty());
        }
        r
    }

    /// The position of a node's state, if known.
    fn state_pos(&self, node_id: &str) -> (r: Option<usize>)
        ensures
            match r {
                Some(i) => state_index_of(self@, node_id@) == Some(i as int) && i < self@.len(),
                None => state_index_of(self@, node_id@) is None,
            },
    {
        let ghost s = self@;
        proof {
            assert(s.skip(0) =~= s);
        }
        let mut i: usize = 0;
        while i < self.nodes.len()
            invariant
                i <= s.len(),
                s == self@,
                s.len() == self.nodes@.len(),
                match state_index_of(s.skip(i as int), node_id@) {
                    None => state_index_of(s, node_id@) is None,
                    Some(k) => state_index_of(s, node_id@) == Some(k + i),
                },
            decreases s.len() - i,
        {
            proof {
                assert(s.skip(i as int)[0] == s[i as int]);
                assert(s[i as int] == self.nodes@[i as int]@);
                assert(s.skip(i as int).drop_first() =~= s.skip(i as int + 1));
            }
            if str_equal(self.nodes[i].node_id.as_str(), node_id) {
                return Some(i);
            }
            i = i + 1;
        }
        proof {
            assert(s.skip(s.len() as int) =~= Seq::<NodeStateV>::empty());
        }
        None
    }

    /// Admits a node, initially valid with no recorded response.
    pub fn add_node(&mut self, node_id: String)
        ensures
            final(self)@ == old(self)@.push(
                NodeStateV { node_id: node_id@, last_response: None, is_valid: true },
            ),
    {
        let ghost oldv = self@;
        self.nodes.push(NodeState { node_id, last_response: None, is_valid: true });
        proof {
            assert(self@ =~= oldv.push(self.nodes@[oldv.len() as int]@));
        }
    }

    /// Records a node's latest challenge response; an unknown node is
    /// left unrecorded.
    pub fn set_node_response(&mut self, node_id: &str, response: String)
        ensures
            state_index_of(old(self)@, node_id@) is None ==> final(self)@ == old(self)@,
            state_index_of(old(self)@, node_id@) matches Some(i) ==> final(self)@ == old(
                self,
            )@.update(i, NodeStateV { last_response: Some(response@), ..old(self)@[i] }),
    {
        let i = match self.state_pos(node_id) {
            None => {
                return ;
            },
            Some(i) => i,
        };
        let ghost oldv = self@;
        let ghost rv = response@;
        let state_ref = &mut self.nodes[i];
        state_ref.last_response = Some(response);
        proof {
            assert(self@ =~= oldv.update(
                i as int,
                NodeStateV { last_response: Some(rv), ..oldv[i as int] },
            ));
        }
    }

    /// Evaluates a node against a challenge: the node becomes valid
    /// exactly when it has a recorded response whose digest matches the
    /// challenge's. An unknown node is left unchanged.
    pub fn evaluate_node(&mut self, node_id: &str, challenge: &str) -> (r: bool)
        ensures
            state_index_of(old(self)@, node_id@) is None ==> final(self)@ == old(self)@ && !r,
            state_index_of(old(self)@, node_id@) matches Some(i) ==> ({
                let verdict = match old(self)@[i].last_response {
                    None => false,
                    Some(resp) => response_answers(
                        vstd::utf8::encode_utf8(resp),
                        vstd::utf8::encode_utf8(challenge@),
                    ),
                };
                final(self)@.len() == old(self)@.len() && final(self)@[i].node_id == old(
                    self,
                )@[i].node_id && final(self)@[i].last_response == old(self)@[i].last_response
                    && final(self)@[i].is_valid == r && r == verdict && (forall|k: int|
                    0 <= k < old(self)@.len() && k != i ==> final(self)@[k] == old(self)@[k])
            }),
    {
        let i = match self.state_pos(node_id) {
            None => {
                return false;
            },
            Some(i) => i,
        };
        let verdict = match &self.nodes[i].last_response {
            None => false,
            Some(response) => {
                let response_digest = sha256(response.as_str().as_bytes());
                let challenge_digest = sha256(challenge.as_bytes());
                bytes_eq(&response_digest, &challenge_digest)
            },
        };
        let ghost oldv = self@;
        let state_ref = &mut self.nodes[i];
        state_ref.is_valid = verdict;
        proof {
            assert(self@ =~= oldv.update(
                i as int,
                NodeStateV { is_valid: verdict, ..oldv[i as int] },
            ));
        }
        verdict
    }
}

} // verus!
