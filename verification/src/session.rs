use vstd::prelude::*;
use crate::command::{
    Command, CommandModel, spec_apply, spec_create_id, lemma_apply_keys,
};
use crate::conn::{ConnState, STATUS_OK, STATUS_NOT_STARTED, spec_poll_status, poll_status};
use crate::node::{Color, Dimensions, EntityKind, NodeModel};
use crate::table::NodeTable;

verus! {

/// The models of a sequence of commands, in queue order (oldest first).
pub open spec fn command_models(cs: Seq<Command>) -> Seq<CommandModel> {
    cs.map_values(|c: Command| c.model())
}

/// A command is fit for the queue of a session whose counter stands at
/// `bound`: a `Create` may only carry an identifier the counter has already
/// passed out.
pub open spec fn queue_cmd_ok(c: CommandModel, bound: u64) -> bool {
    match c {
        CommandModel::Create { id, .. } => 1 <= id && id < bound,
        _ => true,
    }
}

/// Per-session control block: the pending command queue, the monotonic
/// identifier counter, the connection-manager state and the node table.
/// Callers enqueue; the worker drains with [`Session::drain_one`]; the
/// frame loop reads through [`Session::snapshot`].
#[derive(Debug)]
pub struct Session {
    /// Whether a session is active (brought up and not yet torn down).
    pub active: bool,
    /// Set once a drained `Shutdown` command tells the worker to stop.
    pub stop_requested: bool,
    /// Next identifier to hand out; starts at 1 and only ever grows while
    /// the session lives.
    pub next_id: u64,
    /// Connection-manager state.
    pub conn: ConnState,
    /// The authoritative node table; mutated only by draining commands.
    pub table: NodeTable,
    /// Pending commands, oldest first: a strict FIFO.
    pub queue: Vec<Command>,
}

impl Session {
    /// The models of the pending commands, oldest first.
    pub open spec fn pending(&self) -> Seq<CommandModel> {
        command_models(self.queue@)
    }

    /// Well-formedness: the table is well-formed, every live identifier and
    /// every identifier a queued `Create` carries lies below the counter,
    /// and the counter starts no lower than 1. This is what makes
    /// identifiers unique for the session's whole lifetime.
    pub open spec fn wf(&self) -> bool {
        &&& self.table.wf()
        &&& 1 <= self.next_id
        &&& (forall|id: u64| #[trigger] self.table@.contains_key(id) ==> 1 <= id && id < self.next_id)
        &&& (forall|j: int|
            0 <= j < self.pending().len() ==> queue_cmd_ok(#[trigger] self.pending()[j], self.next_id))
        &&& self.conn.wf()
    }

    /// A fresh, inactive session.
    pub fn new() -> (s: Session)
        ensures
            s.wf(),
            !s.active,
            !s.stop_requested,
            s.next_id == 1,
            s.conn == ConnState::Idle,
            s.table@ == Map::<u64, NodeModel>::empty(),
            s.pending() == Seq::<CommandModel>::empty(),
    {
        let s = Session {
            active: false,
            stop_requested: false,
            next_id: 1,
            conn: ConnState::Idle,
            table: NodeTable::new(),
            queue: Vec::new(),
        };
        proof {
            assert(s.pending() =~= Seq::<CommandModel>::empty());
        }
        s
    }

    /// Session bring-up, the control-block half of `start`. Idempotent: on
    /// an active session nothing changes and no fresh worker is needed —
    /// in particular the identifier counter is not reset. On an inactive
    /// session it resets the counter to 1, empties table and queue, and
    /// puts the connection manager on its first attempt.
    pub fn start_begin(&mut self) -> (fresh: bool)
        requires
            old(self).wf(),
        ensures
            final(self).wf(),
            old(self).active ==> !fresh && *final(self) == *old(self),
            !old(self).active ==> fresh && final(self).active && !final(self).stop_requested
                && final(self).next_id == 1 && final(self).table@ == Map::<u64, NodeModel>::empty()
                && final(self).pending() == Seq::<CommandModel>::empty() && final(self).conn
                == (ConnState::Connecting { attempts: 0 }),
            final(self).next_id >= 1,
    {
        if self.active {
            return false;
        }
        self.active = true;
        self.stop_requested = false;
        self.next_id = 1;
        self.conn = ConnState::Connecting { attempts: 0 };
        self.table = NodeTable::new();
        self.queue = Vec::new();
        proof {
            assert(self.pending() =~= Seq::<CommandModel>::empty());
        }
        true
    }

    /// Record the outcome of one connection attempt (worker side).
    pub fn note_connect_attempt(&mut self, success: bool)
        requires
            old(self).wf(),
            old(self).conn is Connecting,
        ensures
            final(self).wf(),
            final(self).conn == old(self).conn.spec_after_attempt(
                success,
                old(self).stop_requested,
            ),
            final(self).active == old(self).active,
            final(self).stop_requested == old(self).stop_requested,
            final(self).next_id == old(self).next_id,
            final(self).table@ == old(self).table@,
            final(self).pending() == old(self).pending(),
    {
        let stop = self.stop_requested;
        self.conn.record_attempt(success, stop);
        proof {
            assert forall|j: int| 0 <= j < self.pending().len() implies queue_cmd_ok(
                #[trigger] self.pending()[j],
                self.next_id,
            ) by {
                assert(queue_cmd_ok(old(self).pending()[j], old(self).next_id));
            }
        }
    }

    /// Liveness status: success exactly when the worker is alive and the
    /// connection manager reached `Connected`.
    pub fn poll(&self, worker_alive: bool) -> (r: i32)
        ensures
            r == spec_poll_status(worker_alive, self.conn),
    {
        poll_status(worker_alive, &self.conn)
    }

    /// Allocate the next identifier and enqueue a `Create` command. The
    /// identifier is handed out synchronously — the command is applied
    /// later, when drained. Returns 0 when no session is active (and, as a
    /// machine limit, when the counter is exhausted); a real identifier is
    /// never 0, never repeats a live node's, and successive successful
    /// calls return strictly increasing identifiers.
    pub fn create_node(&mut self, name: String, transform: [u32; 16]) -> (id: u64)
        requires
            old(self).wf(),
        ensures
            final(self).wf(),
            !old(self).active ==> id == 0 && *final(self) == *old(self),
            old(self).active && old(self).next_id == u64::MAX ==> id == 0 && *final(self) == *old(self),
            old(self).active && old(self).next_id < u64::MAX ==> ({
                &&& id == old(self).next_id
                &&& 1 <= id
                &&& !old(self).table@.contains_key(id)
                &&& final(self).next_id == old(self).next_id + 1
                &&& final(self).pending() == old(self).pending().push(
                    CommandModel::Create { id, name: name@, transform: transform@ },
                )
                &&& final(self).table@ == old(self).table@
                &&& final(self).active && final(self).conn == old(self).conn && final(self).stop_requested == old(self).stop_requested
            }),
            final(self).next_id >= old(self).next_id,
    {
        if !self.active {
            return 0;
        }
        if self.next_id == u64::MAX {
            return 0;
        }
        let ghost pre = self.pending();
        let ghost namev = name@;
        let id = self.next_id;
        self.next_id = id + 1;
        self.queue.push(Command::Create { id, name, transform });
        proof {
            let cm = CommandModel::Create { id, name: namev, transform: transform@ };
            assert(self.pending() =~= pre.push(cm));
            assert forall|j: int| 0 <= j < self.pending().len() implies queue_cmd_ok(
                #[trigger] self.pending()[j],
                self.next_id,
            ) by {
                if j < pre.len() {
                    assert(queue_cmd_ok(pre[j], old(self).next_id));
                } else {
                    assert(self.pending()[j] == cm);
                }
            }
        }
        id
    }

    /// Enqueue one non-`Create` command: accepted when a session is active,
    /// rejected with [`STATUS_NOT_STARTED`] otherwise.
    fn enqueue(&mut self, c: Command) -> (st: i32)
        requires
            old(self).wf(),
            spec_create_id(c.model()) is None,
        ensures
            final(self).wf(),
            !old(self).active ==> st == STATUS_NOT_STARTED && *final(self) == *old(self),
            old(self).active ==> st == STATUS_OK && final(self).pending() == old(self).pending().push(c.model()) && final(self).table@ == old(self).table@ && final(self).next_id == old(self).next_id && final(self).active && final(self).conn == old(self).conn && final(self).stop_requested == old(self).stop_requested,
            final(self).next_id >= old(self).next_id,
    {
        if !self.active {
            return STATUS_NOT_STARTED;
        }
        let ghost pre = self.pending();
        let ghost cm = c.model();
        self.queue.push(c);
        proof {
            assert(self.pending() =~= pre.push(cm));
            assert forall|j: int| 0 <= j < self.pending().len() implies queue_cmd_ok(
                #[trigger] self.pending()[j],
                self.next_id,
            ) by {
                if j < pre.len() {
                    assert(queue_cmd_ok(pre[j], self.next_id));
                }
            }
        }
        STATUS_OK
    }

    /// Enqueue a transform update. Accepted whenever a session is active —
    /// also for identifiers no longer (or never) in the table, where the
    /// drained command applies as a harmless no-op.
    pub fn update_node(&mut self, id: u64, transform: [u32; 16]) -> (st: i32)
        requires
            old(self).wf(),
        ensures
            final(self).wf(),
            !old(self).active ==> st == STATUS_NOT_STARTED && *final(self) == *old(self),
            old(self).active ==> st == STATUS_OK && final(self).pending() == old(self).pending().push(CommandModel::Update { id, transform: transform@ }) && final(self).table@ == old(self).table@ && final(self).next_id == old(self).next_id && final(self).active,
            final(self).next_id >= old(self).next_id,
    {
        self.enqueue(Command::Update { id, transform })
    }

    /// Enqueue a model-source change (an empty URL clears the source).
    pub fn set_node_model(&mut self, id: u64, url: String) -> (st: i32)
        requires
            old(self).wf(),
        ensures
            final(self).wf(),
            !old(self).active ==> st == STATUS_NOT_STARTED && *final(self) == *old(self),
            old(self).active ==> st == STATUS_OK && final(self).pending() == old(self).pending().push(CommandModel::SetModel { id, url: url@ }) && final(self).table@ == old(self).table@ && final(self).next_id == old(self).next_id && final(self).active,
            final(self).next_id >= old(self).next_id,
    {
        self.enqueue(Command::SetModel { id, url })
    }

    /// Enqueue a texture-source change (an empty URL clears the source).
    pub fn set_node_texture(&mut self, id: u64, url: String) -> (st: i32)
        requires
            old(self).wf(),
        ensures
            final(self).wf(),
            !old(self).active ==> st == STATUS_NOT_STARTED && *final(self) == *old(self),
            old(self).active ==> st == STATUS_OK && final(self).pending() == old(self).pending().push(CommandModel::SetTexture { id, url: url@ }) && final(self).table@
                == old(self).table@ && final(self).next_id == old(self).next_id && final(self).active,
            final(self).next_id >= old(self).next_id,
    {
        self.enqueue(Command::SetTexture { id, url })
    }

    /// Enqueue a color change.
    pub fn set_node_color(&mut self, id: u64, color: Color) -> (st: i32)
        requires
            old(self).wf(),
        ensures
            final(self).wf(),
            !old(self).active ==> st == STATUS_NOT_STARTED && *final(self) == *old(self),
            old(self).active ==> st == STATUS_OK && final(self).pending() == old(self).pending().push(CommandModel::SetColor { id, color }) && final(self).table@ == old(self).table@ && final(self).next_id == old(self).next_id && final(self).active,
            final(self).next_id >= old(self).next_id,
    {
        self.enqueue(Command::SetColor { id, color })
    }

    /// Enqueue a dimensions change (near-zero dimensions make the node
    /// non-visual: it is filtered out of every projection).
    pub fn set_node_dimensions(&mut self, id: u64, dims: Dimensions) -> (st: i32)
        requires
            old(self).wf(),
        ensures
            final(self).wf(),
            !old(self).active ==> st == STATUS_NOT_STARTED && *final(self) == *old(self),
            old(self).active ==> st == STATUS_OK && final(self).pending() == old(self).pending().push(CommandModel::SetDimensions { id, dims }) && final(self).table@ == old(self).table@ && final(self).next_id == old(self).next_id && final(self).active,
            final(self).next_id >= old(self).next_id,
    {
        self.enqueue(Command::SetDimensions { id, dims })
    }

    /// Enqueue an entity-type change.
    pub fn set_node_entity_type(&mut self, id: u64, kind: EntityKind) -> (st: i32)
        requires
            old(self).wf(),
        ensures
            final(self).wf(),
            !old(self).active ==> st == STATUS_NOT_STARTED && *final(self) == *old(self),
            old(self).active ==> st == STATUS_OK && final(self).pending() == old(self).pending().push(CommandModel::SetEntityKind { id, kind }) && final(self).table@ == old(self).table@ && final(self).next_id == old(self).next_id && final(self).active,
            final(self).next_id >= old(self).next_id,
    {
        self.enqueue(Command::SetEntityKind { id, kind })
    }

    /// Enqueue a node removal.
    pub fn remove_node(&mut self, id: u64) -> (st: i32)
        requires
            old(self).wf(),
        ensures
            final(self).wf(),
            !old(self).active ==> st == STATUS_NOT_STARTED && *final(self) == *old(self),
            old(self).active ==> st == STATUS_OK && final(self).pending() == old(self).pending().push(CommandModel::Remove { id }) && final(self).table@ == old(self).table@ && final(self).next_id == old(self).next_id && final(self).active,
            final(self).next_id >= old(self).next_id,
    {
        self.enqueue(Command::Remove { id })
    }

    /// Enqueue the `Shutdown` command that makes the worker stop after
    /// draining everything ahead of it.
    pub fn request_shutdown(&mut self) -> (st: i32)
        requires
            old(self).wf(),
        ensures
            final(self).wf(),
            !old(self).active ==> st == STATUS_NOT_STARTED && *final(self) == *old(self),
            old(self).active ==> st == STATUS_OK && final(self).pending() == old(self).pending().push(CommandModel::Shutdown) && final(self).table@ == old(self).table@
                && final(self).next_id == old(self).next_id,
            final(self).next_id >= old(self).next_id,
    {
        self.enqueue(Command::Shutdown)
    }

    /// Raise the process-wide stop flag directly — the cancellation
    /// primitive a connection retry loop observes mid-retry, making it
    /// abort early without reporting failure.
    pub fn request_stop(&mut self)
        requires
            old(self).wf(),
        ensures
            final(self).wf(),
            final(self).stop_requested,
            final(self).active == old(self).active,
            final(self).conn == old(self).conn,
            final(self).next_id == old(self).next_id,
            final(self).table@ == old(self).table@,
            final(self).pending() == old(self).pending(),
    {
        self.stop_requested = true;
        proof {
            assert forall|j: int| 0 <= j < self.pending().len() implies queue_cmd_ok(
                #[trigger] self.pending()[j],
                self.next_id,
            ) by {
                assert(queue_cmd_ok(old(self).pending()[j], old(self).next_id));
            }
        }
    }

    /// Tear-down, after the worker has been joined: the session becomes
    /// inactive so a subsequent `start` can bring up a fresh one.
    pub fn shutdown_finish(&mut self)
        requires
            old(self).wf(),
        ensures
            final(self).wf(),
            !final(self).active,
            final(self).conn == ConnState::Idle,
            final(self).next_id == old(self).next_id,
            final(self).table@ == old(self).table@,
    {
        self.active = false;
        self.conn = ConnState::Idle;
        proof {
            assert forall|j: int| 0 <= j < self.pending().len() implies queue_cmd_ok(
                #[trigger] self.pending()[j],
                self.next_id,
            ) by {
                assert(queue_cmd_ok(old(self).pending()[j], old(self).next_id));
            }
        }
    }

    /// Number of nodes in the table: reflects only commands already
    /// drained, never ones still queued.
    pub fn node_count(&self) -> (n: usize)
        requires
            self.wf(),
        ensures
            n == self.table@.dom().len(),
    {
        self.table.count()
    }

    /// A full clone of the node table for the frame loop, so rendering
    /// preparation works on a snapshot instead of holding the table.
    pub fn snapshot(&self) -> (t: NodeTable)
        requires
            self.wf(),
        ensures
            t@ == self.table@,
            t.models() == self.table.models(),
            t.wf(),
    {
        self.table.snapshot()
    }

    /// Drain one pending command, strict FIFO: the oldest command is
    /// applied to the table (a drained `Shutdown` instead raises the stop
    /// flag). Returns whether a command was drained.
    pub fn drain_one(&mut self) -> (processed: bool)
        requires
            old(self).wf(),
        ensures
            final(self).wf(),
            old(self).pending().len() == 0 ==> !processed && *final(self) == *old(self),
            old(self).pending().len() > 0 ==> processed && ({
                let c = old(self).pending()[0];
                &&& final(self).pending() == old(self).pending().drop_first()
                &&& final(self).table@ == spec_apply(old(self).table@, c)
                &&& final(self).stop_requested == (old(self).stop_requested || c is Shutdown)
                &&& final(self).next_id == old(self).next_id
                &&& final(self).active == old(self).active
                &&& final(self).conn == old(self).conn
            }),
            final(self).next_id >= old(self).next_id,
    {
        if self.queue.len() == 0 {
            proof {
                assert(old(self).pending().len() == 0);
            }
            return false;
        }
        let ghost pre = self.pending();
        let ghost pre_table = self.table@;
        let c = self.queue.remove(0);
        proof {
            assert(self.pending() =~= pre.drop_first());
            assert(c.model() == pre[0]);
        }
        match c {
            Command::Shutdown => {
                self.stop_requested = true;
                proof {
                    assert(spec_apply(pre_table, CommandModel::Shutdown) == pre_table);
                }
            },
            _ => {
                let ghost cm = c.model();
                self.table.apply(c);
                proof {
                    lemma_apply_keys(pre_table, cm);
                    assert forall|id: u64| #[trigger]
                        self.table@.contains_key(id) implies 1 <= id && id < self.next_id by {
                        if !pre_table.contains_key(id) {
                            assert(spec_create_id(cm) == Some(id));
                            assert(queue_cmd_ok(pre[0], self.next_id));
                        }
                    }
                }
            },
        }
        proof {
            assert forall|j: int| 0 <= j < self.pending().len() implies queue_cmd_ok(
                #[trigger] self.pending()[j],
                self.next_id,
            ) by {
                assert(self.pending()[j] == pre[j + 1]);
                assert(queue_cmd_ok(pre[j + 1], self.next_id));
            }
        }
        true
    }
}

/// The create transition in the abstract: `pre` allocated `id` and stepped
/// its counter. This is exactly what [`Session::create_node`] ensures on
/// success.
pub open spec fn spec_allocated(pre: Session, post: Session, id: u64) -> bool {
    id == pre.next_id && post.next_id == pre.next_id + 1
}

/// Identifiers returned by successful `create_node` calls are strictly
/// increasing and never repeat, across any interleaving of other session
/// operations — every operation's contract keeps the counter from
/// shrinking, and intervening `remove_node` calls do not return
/// identifiers to the pool.
pub proof fn lemma_create_ids_strictly_increase(
    s0: Session,
    s1: Session,
    s2: Session,
    s3: Session,
    id1: u64,
    id2: u64,
)
    requires
        spec_allocated(s0, s1, id1),
        s1.next_id <= s2.next_id,
        spec_allocated(s2, s3, id2),
    ensures
        id2 > id1,
{
}

} // verus!
