use vstd::prelude::*;
use crate::node::{Node, NodeModel};
use crate::command::{Command, CommandModel, spec_apply, spec_source_of};

verus! {

/// Pairwise-distinct identifiers in a sequence of node models.
pub open spec fn distinct_ids(s: Seq<NodeModel>) -> bool {
    forall|i: int, j: int|
        0 <= i < s.len() && 0 <= j < s.len() && i != j ==> s[i].id != s[j].id
}

/// The identifier-to-node map that a sequence of nodes denotes. Later
/// entries win, but under [`distinct_ids`] there is nothing to win over.
pub open spec fn map_of(s: Seq<NodeModel>) -> Map<u64, NodeModel>
    decreases s.len(),
{
    if s.len() == 0 {
        Map::empty()
    } else {
        map_of(s.drop_last()).insert(s.last().id, s.last())
    }
}

/// The denoted map is finite, and its keys are exactly the identifiers
/// occurring in the sequence.
pub proof fn lemma_map_of_contains(s: Seq<NodeModel>, k: u64)
    ensures
        map_of(s).dom().finite(),
        map_of(s).contains_key(k) <==> (exists|i: int| 0 <= i < s.len() && s[i].id == k),
    decreases s.len(),
{
    if s.len() == 0 {
    } else {
        lemma_map_of_contains(s.drop_last(), k);
        if s.last().id == k {
            assert(s[s.len() - 1].id == k);
        } else if map_of(s).contains_key(k) {
            let i = choose|i: int| 0 <= i < s.drop_last().len() && s.drop_last()[i].id == k;
            assert(s[i].id == k);
        } else if exists|i: int| 0 <= i < s.len() && s[i].id == k {
            let i = choose|i: int| 0 <= i < s.len() && s[i].id == k;
            assert(s.drop_last()[i].id == k);
        }
    }
}

/// Under distinct identifiers, each position of the sequence is what the
/// denoted map stores for its identifier.
pub proof fn lemma_map_of_index(s: Seq<NodeModel>, i: int)
    requires
        distinct_ids(s),
        0 <= i < s.len(),
    ensures
        map_of(s).contains_key(s[i].id),
        map_of(s)[s[i].id] == s[i],
    decreases s.len(),
{
    lemma_map_of_contains(s, s[i].id);
    if i == s.len() - 1 {
    } else {
        assert(s.drop_last()[i] == s[i]);
        lemma_map_of_index(s.drop_last(), i);
        assert(s.last().id != s[i].id);
    }
}

/// Appending a node denotes inserting it under its identifier.
pub proof fn lemma_map_of_push(s: Seq<NodeModel>, n: NodeModel)
    ensures
        map_of(s.push(n)) == map_of(s).insert(n.id, n),
{
    assert(s.push(n).drop_last() =~= s);
    assert(s.push(n).last() == n);
}

/// Replacing the node at one position by a node with the same identifier
/// denotes inserting the new node under that identifier.
pub proof fn lemma_map_of_update(s: Seq<NodeModel>, i: int, n: NodeModel)
    requires
        distinct_ids(s),
        0 <= i < s.len(),
        n.id == s[i].id,
    ensures
        map_of(s.update(i, n)) == map_of(s).insert(n.id, n),
    decreases s.len(),
{
    let t = s.update(i, n);
    if i == s.len() - 1 {
        assert(t.drop_last() =~= s.drop_last());
        assert(t.last() == n);
        assert(map_of(s.drop_last()).insert(s.last().id, s.last()).insert(n.id, n)
            =~= map_of(s.drop_last()).insert(n.id, n));
    } else {
        assert(t.drop_last() =~= s.drop_last().update(i, n));
        assert(s.drop_last()[i] == s[i]);
        lemma_map_of_update(s.drop_last(), i, n);
        assert(t.last() == s.last());
        assert(s.last().id != n.id);
        assert(map_of(s.drop_last()).insert(n.id, n).insert(s.last().id, s.last())
            =~= map_of(s.drop_last()).insert(s.last().id, s.last()).insert(n.id, n));
    }
}

/// Removing the node at one position denotes removing its identifier.
pub proof fn lemma_map_of_remove(s: Seq<NodeModel>, i: int)
    requires
        distinct_ids(s),
        0 <= i < s.len(),
    ensures
        map_of(s.remove(i)) == map_of(s).remove(s[i].id),
    decreases s.len(),
{
    let t = s.remove(i);
    s.remove_ensures(i);
    if i == s.len() - 1 {
        assert(t =~= s.drop_last());
        lemma_map_of_contains(s.drop_last(), s[i].id);
        assert(forall|j: int| 0 <= j < s.drop_last().len() ==> s.drop_last()[j].id != s[i].id);
        assert(map_of(s.drop_last()).insert(s.last().id, s.last()).remove(s[i].id)
            =~= map_of(s.drop_last()));
    } else {
        assert(t.len() == s.len() - 1);
        assert(t.drop_last() =~= s.drop_last().remove(i));
        assert(s.drop_last()[i] == s[i]);
        lemma_map_of_remove(s.drop_last(), i);
        assert(t.last() == s[s.len() - 1]);
        assert(s.last().id != s[i].id);
        assert(map_of(s.drop_last()).remove(s[i].id).insert(s.last().id, s.last())
            =~= map_of(s.drop_last()).insert(s.last().id, s.last()).remove(s[i].id));
    }
}

/// Under distinct identifiers the denoted map has exactly one entry per
/// node of the sequence.
pub proof fn lemma_map_of_len(s: Seq<NodeModel>)
    requires
        distinct_ids(s),
    ensures
        map_of(s).dom().finite(),
        map_of(s).dom().len() == s.len(),
    decreases s.len(),
{
    broadcast use vstd::set::group_set_axioms;

    if s.len() == 0 {
        assert(map_of(s).dom() =~= Set::<u64>::empty());
    } else {
        lemma_map_of_len(s.drop_last());
        lemma_map_of_contains(s.drop_last(), s.last().id);
        assert(forall|j: int| 0 <= j < s.drop_last().len() ==> s.drop_last()[j].id != s.last().id);
        assert(!map_of(s.drop_last()).contains_key(s.last().id));
        assert(map_of(s).dom() =~= map_of(s.drop_last()).dom().insert(s.last().id));
    }
}

/// The models of a sequence of nodes, in table order.
pub open spec fn models_of(ns: Seq<Node>) -> Seq<NodeModel> {
    ns.map_values(|n: Node| n.model())
}

/// The authoritative mapping of node identifier to node attributes. Owned
/// by the session; mutated only through [`NodeTable::apply`], read by the
/// frame loop through [`NodeTable::snapshot`]. Its view is the map from
/// identifier to node model.
#[derive(Debug)]
pub struct NodeTable {
    pub nodes: Vec<Node>,
}

impl View for NodeTable {
    type V = Map<u64, NodeModel>;

    open spec fn view(&self) -> Map<u64, NodeModel> {
        map_of(self.models())
    }
}

impl NodeTable {
    /// The node models in table order.
    pub open spec fn models(&self) -> Seq<NodeModel> {
        models_of(self.nodes@)
    }

    /// Well-formed: no identifier occurs twice.
    pub open spec fn wf(&self) -> bool {
        distinct_ids(self.models())
    }

    /// An empty table.
    pub fn new() -> (t: NodeTable)
        ensures
            t.wf(),
            t@ == Map::<u64, NodeModel>::empty(),
            t.models() == Seq::<NodeModel>::empty(),
    {
        let t = NodeTable { nodes: Vec::new() };
        proof {
            assert(t.models() =~= Seq::<NodeModel>::empty());
        }
        t
    }

    /// Number of nodes: the size of the denoted map.
    pub fn count(&self) -> (n: usize)
        requires
            self.wf(),
        ensures
            n == self@.dom().len(),
    {
        proof {
            lemma_map_of_len(self.models());
        }
        self.nodes.len()
    }

    /// Number of nodes as the length of the model sequence.
    pub fn len(&self) -> (n: usize)
        ensures
            n == self.models().len(),
    {
        self.nodes.len()
    }

    /// The node stored at a position of the table.
    pub fn node_at(&self, i: usize) -> (n: &Node)
        requires
            i < self.models().len(),
        ensures
            n.model() == self.models()[i as int],
    {
        &self.nodes[i]
    }

    /// Position of the node with the given identifier, if any.
    fn index_of(&self, id: u64) -> (r: Option<usize>)
        ensures
            match r {
                Some(i) => i < self.models().len() && self.models()[i as int].id == id,
                None => forall|j: int| 0 <= j < self.models().len() ==> self.models()[j].id != id,
            },
    {
        let mut i: usize = 0;
        while i < self.nodes.len()
            invariant
                i <= self.models().len(),
                forall|j: int| 0 <= j < i ==> self.models()[j].id != id,
            decreases self.models().len() - i,
        {
            if self.nodes[i].id == id {
                return Some(i);
            }
            i = i + 1;
        }
        None
    }

    /// Whether the table holds a node with the given identifier.
    pub fn contains_id(&self, id: u64) -> (r: bool)
        ensures
            r == self@.contains_key(id),
    {
        proof {
            lemma_map_of_contains(self.models(), id);
        }
        match self.index_of(id) {
            Some(_) => true,
            None => false,
        }
    }

    /// A full clone of the table, taken by the frame loop so rendering
    /// preparation never holds the table lock.
    pub fn snapshot(&self) -> (t: NodeTable)
        ensures
            t.models() == self.models(),
            t@ == self@,
            t.wf() == self.wf(),
    {
        let mut nodes: Vec<Node> = Vec::new();
        let mut i: usize = 0;
        proof {
            assert(models_of(nodes@) =~= self.models().take(0));
        }
        while i < self.nodes.len()
            invariant
                i <= self.models().len(),
                models_of(nodes@) == self.models().take(i as int),
            decreases self.models().len() - i,
        {
            let ghost prev = nodes@;
            let c = self.nodes[i].clone();
            let ghost cm = c.model();
            nodes.push(c);
            proof {
                assert(models_of(prev).len() == prev.len());
                assert(prev.len() == i as int);
                assert(cm == self.models()[i as int]);
                assert forall|j: int| 0 <= j < nodes@.len()
                    implies models_of(nodes@)[j] == self.models().take(i as int + 1)[j] by {
                    if j < i as int {
                        assert(nodes@[j] == prev[j]);
                        assert(models_of(prev)[j] == self.models().take(i as int)[j]);
                    } else {
                        assert(nodes@[j].model() == cm);
                    }
                }
                assert(models_of(nodes@) =~= self.models().take(i as int + 1));
            }
            i = i + 1;
        }
        let t = NodeTable { nodes };
        proof {
            assert(self.models().take(self.models().len() as int) =~= self.models());
        }
        t
    }

    /// Replace the node at a position by one carrying the same identifier.
    fn replace_at(&mut self, i: usize, n: Node)
        requires
            old(self).wf(),
            i < old(self).models().len(),
            n.model().id == old(self).models()[i as int].id,
        ensures
            final(self).wf(),
            final(self).models() == old(self).models().update(i as int, n.model()),
            final(self)@ == old(self)@.insert(n.model().id, n.model()),
    {
        let ghost pre = self.models();
        let ghost nm = n.model();
        let slot = &mut self.nodes[i];
        *slot = n;
        proof {
            assert(self.models() =~= pre.update(i as int, nm));
            assert forall|p: int, q: int|
                0 <= p < self.models().len() && 0 <= q < self.models().len() && p != q
                implies self.models()[p].id != self.models()[q].id by {
                assert(pre[p].id != pre[q].id);
            }
            lemma_map_of_update(pre, i as int, nm);
        }
    }

    /// Apply one mutation command. Unknown identifiers are no-ops, and so is
    /// `Create` of an identifier already present and `Shutdown`: exactly
    /// [`spec_apply`] on the denoted map.
    pub fn apply(&mut self, c: Command)
        requires
            old(self).wf(),
        ensures
            final(self).wf(),
            final(self)@ == spec_apply(old(self)@, c.model()),
    {
        let ghost pre = self.models();
        match c {
            Command::Create { id, name, transform } => {
                let ghost namev = name@;
                match self.index_of(id) {
                    Some(_) => {
                        proof {
                            lemma_map_of_contains(pre, id);
                        }
                    },
                    None => {
                        proof {
                            lemma_map_of_contains(pre, id);
                        }
                        let ghost fresh = Node::spec_fresh(id, namev, transform@);
                        self.nodes.push(Node::fresh(id, name, transform));
                        proof {
                            assert(self.models() =~= pre.push(fresh));
                            lemma_map_of_push(pre, fresh);
                            assert forall|p: int, q: int|
                                0 <= p < self.models().len() && 0 <= q < self.models().len()
                                && p != q
                                implies self.models()[p].id != self.models()[q].id by {
                                if p < pre.len() && q < pre.len() {
                                    assert(pre[p].id != pre[q].id);
                                } else if p < pre.len() {
                                    assert(pre[p].id != id);
                                } else {
                                    assert(pre[q].id != id);
                                }
                            }
                        }
                    },
                }
            },
            Command::Update { id, transform } => {
                match self.index_of(id) {
                    Some(i) => {
                        proof {
                            lemma_map_of_index(pre, i as int);
                        }
                        let mut n = self.nodes[i].clone();
                        n.transform = transform;
                        self.replace_at(i, n);
                    },
                    None => {
                        proof {
                            lemma_map_of_contains(pre, id);
                        }
                    },
                }
            },
            Command::SetModel { id, url } => {
                let ghost urlv = url@;
                match self.index_of(id) {
                    Some(i) => {
                        proof {
                            lemma_map_of_index(pre, i as int);
                        }
                        let mut n = self.nodes[i].clone();
                        n.model_source = if url.as_str().is_empty() {
                            None
                        } else {
                            Some(url)
                        };
                        self.replace_at(i, n);
                        proof {
                            assert(n.model().model_source == spec_source_of(urlv));
                        }
                    },
                    None => {
                        proof {
                            lemma_map_of_contains(pre, id);
                        }
                    },
                }
            },
            Command::SetTexture { id, url } => {
                let ghost urlv = url@;
                match self.index_of(id) {
                    Some(i) => {
                        proof {
                            lemma_map_of_index(pre, i as int);
                        }
                        let mut n = self.nodes[i].clone();
                        n.texture_source = if url.as_str().is_empty() {
                            None
                        } else {
                            Some(url)
                        };
                        self.replace_at(i, n);
                        proof {
                            assert(n.model().texture_source == spec_source_of(urlv));
                        }
                    },
                    None => {
                        proof {
                            lemma_map_of_contains(pre, id);
                        }
                    },
                }
            },
            Command::SetColor { id, color } => {
                match self.index_of(id) {
                    Some(i) => {
                        proof {
                            lemma_map_of_index(pre, i as int);
                        }
                        let mut n = self.nodes[i].clone();
                        n.color = color;
                        self.replace_at(i, n);
                    },
                    None => {
                        proof {
                            lemma_map_of_contains(pre, id);
                        }
                    },
                }
            },
            Command::SetDimensions { id, dims } => {
                match self.index_of(id) {
                    Some(i) => {
                        proof {
                            lemma_map_of_index(pre, i as int);
                        }
                        let mut n = self.nodes[i].clone();
                        n.dims = dims;
                        self.replace_at(i, n);
                    },
                    None => {
                        proof {
                            lemma_map_of_contains(pre, id);
                        }
                    },
                }
            },
            Command::SetEntityKind { id, kind } => {
                match self.index_of(id) {
                    Some(i) => {
                        proof {
                            lemma_map_of_index(pre, i as int);
                        }
                        let mut n = self.nodes[i].clone();
                        n.kind = kind;
                        self.replace_at(i, n);
                    },
                    None => {
                        proof {
                            lemma_map_of_contains(pre, id);
                        }
                    },
                }
            },
            Command::Remove { id } => {
                match self.index_of(id) {
                    Some(i) => {
                        proof {
                            lemma_map_of_index(pre, i as int);
                            lemma_map_of_remove(pre, i as int);
                            pre.remove_ensures(i as int);
                        }
                        self.nodes.remove(i);
                        proof {
                            assert(self.models() =~= pre.remove(i as int));
                            assert forall|p: int, q: int|
                                0 <= p < self.models().len() && 0 <= q < self.models().len()
                                && p != q
                                implies self.models()[p].id != self.models()[q].id by {
                                let pp: int = if p < i { p } else { p + 1 };
                                let qq: int = if q < i { q } else { q + 1 };
                                assert(pre[pp].id != pre[qq].id);
                            }
                        }
                    },
                    None => {
                        proof {
                            lemma_map_of_contains(pre, id);
                        }
                    },
                }
            },
            Command::Shutdown => {},
        }
    }
}

} // verus!
