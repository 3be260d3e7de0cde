use vstd::prelude::*;
use crate::node::{Color, Dimensions, EntityKind, NodeModel, source_model};
use crate::table::{NodeTable, distinct_ids};

verus! {

/// What the frame loop hands the projector for one visible node. The
/// identifier is the stable key for the projector's incremental scene
/// diff; rotation and translation come from the transform, the visual
/// extent from the explicit dimensions.
#[derive(Debug)]
pub struct RenderItem {
    pub id: u64,
    pub kind: EntityKind,
    pub model_source: Option<String>,
    pub texture_source: Option<String>,
    pub color: Color,
    pub transform: [u32; 16],
    pub dims: Dimensions,
}

/// Mathematical model of a render item.
#[verifier::ext_equal]
pub struct RenderItemModel {
    pub id: u64,
    pub kind: EntityKind,
    pub model_source: Option<Seq<char>>,
    pub texture_source: Option<Seq<char>>,
    pub color: Color,
    pub transform: Seq<u32>,
    pub dims: Dimensions,
}

impl RenderItem {
    /// The item's mathematical model.
    pub open spec fn model(self) -> RenderItemModel {
        RenderItemModel {
            id: self.id,
            kind: self.kind,
            model_source: source_model(self.model_source),
            texture_source: source_model(self.texture_source),
            color: self.color,
            transform: self.transform@,
            dims: self.dims,
        }
    }
}

/// The render item a node projects to.
pub open spec fn spec_item_of(n: NodeModel) -> RenderItemModel {
    RenderItemModel {
        id: n.id,
        kind: n.kind,
        model_source: n.model_source,
        texture_source: n.texture_source,
        color: n.color,
        transform: n.transform,
        dims: n.dims,
    }
}

/// The filter the frame loop applies: nodes with a near-zero dimensions
/// vector are non-visual anchors and are left out of the projection.
pub open spec fn visible_pred() -> spec_fn(NodeModel) -> bool {
    |n: NodeModel| n.dims.spec_visual()
}

/// Projection to render items.
pub open spec fn item_fn() -> spec_fn(NodeModel) -> RenderItemModel {
    |n: NodeModel| spec_item_of(n)
}

/// One frame's projection of a table state: the visible nodes, in table
/// order, each turned into its render item.
pub open spec fn spec_project(s: Seq<NodeModel>) -> Seq<RenderItemModel> {
    s.filter(visible_pred()).map_values(item_fn())
}

/// The models of a sequence of render items.
pub open spec fn item_models(s: Seq<RenderItem>) -> Seq<RenderItemModel> {
    s.map_values(|it: RenderItem| it.model())
}

/// Pairwise-distinct identifiers among render items.
pub open spec fn distinct_item_ids(s: Seq<RenderItemModel>) -> bool {
    forall|p: int, q: int|
        0 <= p < s.len() && 0 <= q < s.len() && p != q ==> s[p].id != s[q].id
}

/// Project one table snapshot into render items, filtering out non-visual
/// nodes and keeping table order, so the projector sees stable keys.
pub fn project(table: &NodeTable) -> (out: Vec<RenderItem>)
    ensures
        item_models(out@) == spec_project(table.models()),
{
    let ghost mseq = table.models();
    let mut out: Vec<RenderItem> = Vec::new();
    let mut i: usize = 0;
    proof {
        assert(mseq.take(0) =~= Seq::<NodeModel>::empty());
        assert(item_models(out@) =~= spec_project(mseq.take(0)));
    }
    while i < table.len()
        invariant
            i <= mseq.len(),
            mseq == table.models(),
            item_models(out@) == spec_project(mseq.take(i as int)),
        decreases mseq.len() - i,
    {
        let ghost m = mseq[i as int];
        let nd = table.node_at(i).clone();
        proof {
            assert(nd.model() == m);
            assert(mseq.take(i as int + 1) =~= mseq.take(i as int) + seq![m]);
            Seq::filter_distributes_over_add(mseq.take(i as int), seq![m], visible_pred());
        }
        let visual = nd.dims.is_visual();
        proof {
            reveal_with_fuel(Seq::filter, 3);
        }
        if visual {
            let ghost pre = out@;
            let item = RenderItem {
                id: nd.id,
                kind: nd.kind,
                model_source: nd.model_source,
                texture_source: nd.texture_source,
                color: nd.color,
                transform: nd.transform,
                dims: nd.dims,
            };
            proof {
                assert(item.model() == spec_item_of(m));
            }
            out.push(item);
            proof {
                assert(seq![m].filter(visible_pred()) =~= seq![m]);
                assert(spec_project(mseq.take(i as int + 1)) =~= spec_project(
                    mseq.take(i as int),
                ).push(spec_item_of(m)));
                assert(item_models(out@) =~= item_models(pre).push(spec_item_of(m)));
            }
        } else {
            proof {
                assert(seq![m].filter(visible_pred()) =~= Seq::<NodeModel>::empty());
                assert(spec_project(mseq.take(i as int + 1)) =~= spec_project(mseq.take(i as int)));
            }
        }
        i = i + 1;
    }
    proof {
        assert(mseq.take(mseq.len() as int) =~= mseq);
    }
    out
}

/// Every element the filter keeps occurs in the source sequence.
proof fn lemma_filter_elements(s: Seq<NodeModel>)
    ensures
        forall|k: int|
            0 <= k < s.filter(visible_pred()).len() ==> exists|i: int|
                0 <= i < s.len() && s[i] == #[trigger] s.filter(visible_pred())[k],
    decreases s.len(),
{
    reveal(Seq::filter);
    if s.len() > 0 {
        let d = s.drop_last();
        lemma_filter_elements(d);
        assert forall|k: int| 0 <= k < s.filter(visible_pred()).len() implies exists|i: int|
            0 <= i < s.len() && s[i] == #[trigger] s.filter(visible_pred())[k] by {
            let f = s.filter(visible_pred());
            let fd = d.filter(visible_pred());
            if k < fd.len() {
                let i = choose|i: int| 0 <= i < d.len() && d[i] == fd[k];
                assert(s[i] == f[k]);
            } else {
                assert(f[k] == s.last());
                assert(s[s.len() - 1] == f[k]);
            }
        }
    }
}

/// A projection never repeats a key: distinct identifiers in the table
/// give distinct identifiers among the projected items, so the projector's
/// incremental diff can rely on them.
pub proof fn lemma_projection_ids_distinct(s: Seq<NodeModel>)
    requires
        distinct_ids(s),
    ensures
        distinct_item_ids(spec_project(s)),
    decreases s.len(),
{
    reveal(Seq::filter);
    if s.len() > 0 {
        let d = s.drop_last();
        assert(distinct_ids(d)) by {
            assert forall|i: int, j: int|
                0 <= i < d.len() && 0 <= j < d.len() && i != j implies d[i].id != d[j].id by {
                assert(s[i].id != s[j].id);
            }
        }
        lemma_projection_ids_distinct(d);
        lemma_filter_elements(d);
        let f = s.filter(visible_pred());
        let fd = d.filter(visible_pred());
        if visible_pred()(s.last()) {
            assert(f == fd.push(s.last()));
            assert forall|p: int, q: int|
                0 <= p < f.len() && 0 <= q < f.len() && p != q implies f[p].id != f[q].id by {
                if p < fd.len() && q < fd.len() {
                    assert(spec_project(d)[p].id == fd[p].id);
                    assert(spec_project(d)[q].id == fd[q].id);
                } else if p < fd.len() {
                    let i = choose|i: int| 0 <= i < d.len() && d[i] == fd[p];
                    assert(s[i].id != s.last().id);
                } else {
                    let i = choose|i: int| 0 <= i < d.len() && d[i] == fd[q];
                    assert(s[i].id != s.last().id);
                }
            }
        } else {
            assert(f == fd);
            assert forall|p: int, q: int|
                0 <= p < f.len() && 0 <= q < f.len() && p != q implies f[p].id != f[q].id by {
                assert(spec_project(d)[p].id == fd[p].id);
                assert(spec_project(d)[q].id == fd[q].id);
            }
        }
        assert forall|p: int, q: int|
            0 <= p < spec_project(s).len() && 0 <= q < spec_project(s).len() && p != q
            implies spec_project(s)[p].id != spec_project(s)[q].id by {
            assert(spec_project(s)[p].id == f[p].id);
            assert(spec_project(s)[q].id == f[q].id);
        }
    }
}

} // verus!
