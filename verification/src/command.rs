use vstd::prelude::*;
use crate::node::{EntityKind, Color, Dimensions, Node, NodeModel};

verus! {

/// A mutation request carried by the command queue. Commands that reference
/// an identifier absent from the table are applied as no-ops.
#[derive(Debug)]
pub enum Command {
    Create { id: u64, name: String, transform: [u32; 16] },
    Update { id: u64, transform: [u32; 16] },
    SetModel { id: u64, url: String },
    SetTexture { id: u64, url: String },
    SetColor { id: u64, color: Color },
    SetDimensions { id: u64, dims: Dimensions },
    SetEntityKind { id: u64, kind: EntityKind },
    Remove { id: u64 },
    Shutdown,
}

/// Mathematical model of a command.
#[verifier::ext_equal]
pub enum CommandModel {
    Create { id: u64, name: Seq<char>, transform: Seq<u32> },
    Update { id: u64, transform: Seq<u32> },
    SetModel { id: u64, url: Seq<char> },
    SetTexture { id: u64, url: Seq<char> },
    SetColor { id: u64, color: Color },
    SetDimensions { id: u64, dims: Dimensions },
    SetEntityKind { id: u64, kind: EntityKind },
    Remove { id: u64 },
    Shutdown,
}

impl Command {
    /// The command's mathematical model.
    pub open spec fn model(self) -> CommandModel {
        match self {
            Command::Create { id, name, transform } => CommandModel::Create {
                id: id,
                name: name@,
                transform: transform@,
            },
            Command::Update { id, transform } => CommandModel::Update {
                id: id,
                transform: transform@,
            },
            Command::SetModel { id, url } => CommandModel::SetModel { id: id, url: url@ },
            Command::SetTexture { id, url } => CommandModel::SetTexture { id: id, url: url@ },
            Command::SetColor { id, color } => CommandModel::SetColor { id: id, color: color },
            Command::SetDimensions { id, dims } => CommandModel::SetDimensions {
                id: id,
                dims: dims,
            },
            Command::SetEntityKind { id, kind } => CommandModel::SetEntityKind {
                id: id,
                kind: kind,
            },
            Command::Remove { id } => CommandModel::Remove { id: id },
            Command::Shutdown => CommandModel::Shutdown,
        }
    }
}

/// An empty source reference means "use the primitive for the entity type",
/// and is stored as absence.
pub open spec fn spec_source_of(url: Seq<char>) -> Option<Seq<char>> {
    if url.len() == 0 {
        None
    } else {
        Some(url)
    }
}

/// What applying one command does to the node table, as a map from
/// identifier to node model. Unknown identifiers leave the table unchanged;
/// `Create` of an identifier already present is likewise a no-op, so
/// identifiers stay unique. `Shutdown` does not touch the table (the
/// consumer reacts to it by stopping).
pub open spec fn spec_apply(m: Map<u64, NodeModel>, c: CommandModel) -> Map<u64, NodeModel> {
    match c {
        CommandModel::Create { id, name, transform } => {
            if m.contains_key(id) {
                m
            } else {
                m.insert(id, Node::spec_fresh(id, name, transform))
            }
        },
        CommandModel::Update { id, transform } => {
            if m.contains_key(id) {
                m.insert(id, NodeModel { transform: transform, ..m[id] })
            } else {
                m
            }
        },
        CommandModel::SetModel { id, url } => {
            if m.contains_key(id) {
                m.insert(id, NodeModel { model_source: spec_source_of(url), ..m[id] })
            } else {
                m
            }
        },
        CommandModel::SetTexture { id, url } => {
            if m.contains_key(id) {
                m.insert(id, NodeModel { texture_source: spec_source_of(url), ..m[id] })
            } else {
                m
            }
        },
        CommandModel::SetColor { id, color } => {
            if m.contains_key(id) {
                m.insert(id, NodeModel { color: color, ..m[id] })
            } else {
                m
            }
        },
        CommandModel::SetDimensions { id, dims } => {
            if m.contains_key(id) {
                m.insert(id, NodeModel { dims: dims, ..m[id] })
            } else {
                m
            }
        },
        CommandModel::SetEntityKind { id, kind } => {
            if m.contains_key(id) {
                m.insert(id, NodeModel { kind: kind, ..m[id] })
            } else {
                m
            }
        },
        CommandModel::Remove { id } => {
            if m.contains_key(id) {
                m.remove(id)
            } else {
                m
            }
        },
        CommandModel::Shutdown => m,
    }
}

/// Folding a whole sequence of commands over the table, oldest first.
pub open spec fn spec_apply_all(m: Map<u64, NodeModel>, cs: Seq<CommandModel>) -> Map<u64, NodeModel>
    decreases cs.len(),
{
    if cs.len() == 0 {
        m
    } else {
        spec_apply_all(spec_apply(m, cs[0]), cs.drop_first())
    }
}

/// The identifier a `Create` command would insert, if any.
pub open spec fn spec_create_id(c: CommandModel) -> Option<u64> {
    match c {
        CommandModel::Create { id, .. } => Some(id),
        _ => None,
    }
}

/// Whether a command removes the given identifier.
pub open spec fn spec_removes(c: CommandModel, id: u64) -> bool {
    match c {
        CommandModel::Remove { id: rid } => rid == id,
        _ => false,
    }
}

/// Applying a command introduces no key other than the one a `Create`
/// carries.
pub proof fn lemma_apply_keys(m: Map<u64, NodeModel>, c: CommandModel)
    ensures
        forall|id: u64|
            #[trigger] spec_apply(m, c).contains_key(id) ==> m.contains_key(id) || spec_create_id(
                c,
            ) == Some(id),
{
}

/// A node survives every command that does not remove its identifier.
pub proof fn lemma_apply_preserves_node(m: Map<u64, NodeModel>, c: CommandModel, id: u64)
    requires
        m.contains_key(id),
        !spec_removes(c, id),
    ensures
        spec_apply(m, c).contains_key(id),
{
}

/// A node survives a whole drained sequence that never removes its
/// identifier.
pub proof fn lemma_apply_all_preserves_node(m: Map<u64, NodeModel>, cs: Seq<CommandModel>, id: u64)
    requires
        m.contains_key(id),
        forall|j: int| 0 <= j < cs.len() ==> !spec_removes(#[trigger] cs[j], id),
    ensures
        spec_apply_all(m, cs).contains_key(id),
    decreases cs.len(),
{
    if cs.len() > 0 {
        lemma_apply_preserves_node(m, cs[0], id);
        assert(forall|j: int|
            0 <= j < cs.drop_first().len() ==> !spec_removes(#[trigger] cs.drop_first()[j], id));
        lemma_apply_all_preserves_node(spec_apply(m, cs[0]), cs.drop_first(), id);
    }
}

/// Enqueue order governs the final transform: a `Create` for an identifier
/// drained before an `Update` for the same identifier — with any commands
/// between them, none of which removes that identifier — leaves the table
/// holding the updated transform, never the created one.
pub proof fn lemma_create_before_update_applies(
    m: Map<u64, NodeModel>,
    mid: Seq<CommandModel>,
    id: u64,
    name: Seq<char>,
    t0: Seq<u32>,
    t: Seq<u32>,
)
    requires
        forall|j: int| 0 <= j < mid.len() ==> !spec_removes(#[trigger] mid[j], id),
    ensures
        ({
            let m1 = spec_apply(m, CommandModel::Create { id, name, transform: t0 });
            let m2 = spec_apply_all(m1, mid);
            let m3 = spec_apply(m2, CommandModel::Update { id, transform: t });
            m3.contains_key(id) && m3[id].transform == t
        }),
{
    let m1 = spec_apply(m, CommandModel::Create { id, name, transform: t0 });
    assert(m1.contains_key(id));
    lemma_apply_all_preserves_node(m1, mid, id);
}

/// Removing a node shrinks the table by exactly one entry, and a subsequent
/// `Update` of the removed identifier changes nothing: the command is
/// accepted but applies as a no-op.
pub proof fn lemma_remove_then_update_is_noop(m: Map<u64, NodeModel>, id: u64, t: Seq<u32>)
    requires
        m.dom().finite(),
        m.contains_key(id),
    ensures
        ({
            let m1 = spec_apply(m, CommandModel::Remove { id });
            &&& m1.dom().len() == m.dom().len() - 1
            &&& spec_apply(m1, CommandModel::Update { id, transform: t }) == m1
        }),
{
    broadcast use vstd::set::group_set_axioms;

    let m1 = spec_apply(m, CommandModel::Remove { id });
    assert(m1.dom() =~= m.dom().remove(id));
}

} // verus!
