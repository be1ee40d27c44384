//! Laws of the relay, stated over traces of registry operations: what an
//! arbitrary interleaving of admissions, teardowns, fan-outs, targeted
//! sends and forwarder pops leaves in a recipient's queue.

use vstd::prelude::*;
use crate::messages::FrameView;
use crate::registry::{fan_out_model, send_to_model};

verus! {

/// One registry operation, as the operations' own contracts describe it.
pub enum OpView {
    /// `Registry::register(id)` succeeding or refused as a duplicate.
    Register(u64),
    /// `Registry::remove(id)`.
    Teardown(u64),
    /// `Registry::fan_out(sender, f)`.
    FanOut(u64, FrameView),
    /// `Registry::send_to(id, f)`.
    SendTo(u64, FrameView),
    /// `Registry::pop_outbound(id)`.
    Pop(u64),
}

/// The map after one operation, exactly as the corresponding registry
/// method's `ensures` states it.
pub open spec fn apply_op(m: Map<u64, Seq<FrameView>>, op: OpView) -> Map<u64, Seq<FrameView>> {
    match op {
        OpView::Register(id) => if m.dom().contains(id) {
            m
        } else {
            m.insert(id, Seq::empty())
        },
        OpView::Teardown(id) => m.remove(id),
        OpView::FanOut(sender, f) => fan_out_model(m, sender, f),
        OpView::SendTo(id, f) => send_to_model(m, id, f),
        OpView::Pop(id) => if m.dom().contains(id) && m[id].len() > 0 {
            m.insert(id, m[id].drop_first())
        } else {
            m
        },
    }
}

/// The map after a whole trace of operations.
pub open spec fn run(m: Map<u64, Seq<FrameView>>, ops: Seq<OpView>) -> Map<u64, Seq<FrameView>>
    decreases ops.len(),
{
    if ops.len() == 0 {
        m
    } else {
        run(apply_op(m, ops.first()), ops.drop_first())
    }
}

/// The frames `sender` fans out over a trace, in the order it sent them.
pub open spec fn sent_by(ops: Seq<OpView>, sender: u64) -> Seq<FrameView>
    decreases ops.len(),
{
    if ops.len() == 0 {
        Seq::empty()
    } else {
        let rest = sent_by(ops.drop_first(), sender);
        match ops.first() {
            OpView::FanOut(s, f) => if s == sender {
                seq![f] + rest
            } else {
                rest
            },
            _ => rest,
        }
    }
}

/// The frames a trace appends to `r`'s queue, in the order they arrive:
/// a fan-out reaches `r` when `r` is registered and is not the sender, a
/// targeted send when `r` is registered and is the addressee.
pub open spec fn delivered_to(
    m: Map<u64, Seq<FrameView>>,
    ops: Seq<OpView>,
    r: u64,
) -> Seq<FrameView>
    decreases ops.len(),
{
    if ops.len() == 0 {
        Seq::empty()
    } else {
        let now = match ops.first() {
            OpView::FanOut(s, f) => if m.dom().contains(r) && s != r {
                seq![f]
            } else {
                Seq::empty()
            },
            OpView::SendTo(id, f) => if id == r && m.dom().contains(r) {
                seq![f]
            } else {
                Seq::empty()
            },
            _ => Seq::empty(),
        };
        now + delivered_to(apply_op(m, ops.first()), ops.drop_first(), r)
    }
}

/// Of the frames a trace appends to `r`'s queue, those fanned out by `s`,
/// still in arrival order.
pub open spec fn delivered_to_from(
    m: Map<u64, Seq<FrameView>>,
    ops: Seq<OpView>,
    r: u64,
    s: u64,
) -> Seq<FrameView>
    decreases ops.len(),
{
    if ops.len() == 0 {
        Seq::empty()
    } else {
        let now = match ops.first() {
            OpView::FanOut(sender, f) => if sender == s && m.dom().contains(r) && s != r {
                seq![f]
            } else {
                Seq::empty()
            },
            _ => Seq::empty(),
        };
        now + delivered_to_from(apply_op(m, ops.first()), ops.drop_first(), r, s)
    }
}

/// No operation of the trace tears `r` down or drains `r`'s queue.
pub open spec fn undisturbed(ops: Seq<OpView>, r: u64) -> bool {
    forall|i: int|
        0 <= i < ops.len() ==> (match #[trigger] ops[i] {
            OpView::Teardown(id) => id != r,
            OpView::Pop(id) => id != r,
            _ => true,
        })
}

/// No operation of the trace admits `r`.
pub open spec fn never_registered(ops: Seq<OpView>, r: u64) -> bool {
    forall|i: int|
        0 <= i < ops.len() ==> (match #[trigger] ops[i] {
            OpView::Register(id) => id != r,
            _ => true,
        })
}

/// A registered recipient that is neither torn down nor drained ends a
/// trace with exactly its old queue followed by everything the trace
/// delivered to it, in arrival order: frames are only ever appended, so a
/// recipient's receive order is the arrival order.
pub proof fn lemma_queue_is_delivery_log(m: Map<u64, Seq<FrameView>>, ops: Seq<OpView>, r: u64)
    requires
        m.dom().contains(r),
        undisturbed(ops, r),
    ensures
        run(m, ops).dom().contains(r),
        run(m, ops)[r] == m[r] + delivered_to(m, ops, r),
    decreases ops.len(),
{
    if ops.len() == 0 {
        assert(run(m, ops)[r] =~= m[r] + delivered_to(m, ops, r));
    } else {
        let op = ops.first();
        let m2 = apply_op(m, op);
        let rest = ops.drop_first();
        assert(ops[0] == op);
        assert(undisturbed(rest, r)) by {
            assert forall|i: int|
                0 <= i < rest.len() implies (match #[trigger] rest[i] {
                OpView::Teardown(id) => id != r,
                OpView::Pop(id) => id != r,
                _ => true,
            }) by {
                assert(rest[i] == ops[i + 1]);
            }
        }
        assert(m2.dom().contains(r));
        lemma_queue_is_delivery_log(m2, rest, r);
        match op {
            OpView::FanOut(s, f) => {
                if s != r {
                    assert(m2[r] == m[r].push(f));
                    assert(m[r].push(f) =~= m[r] + seq![f]);
                    assert(m[r] + (seq![f] + delivered_to(m2, rest, r)) =~= (m[r] + seq![f])
                        + delivered_to(m2, rest, r));
                } else {
                    assert(m2[r] == m[r]);
                    assert(m[r] + (Seq::<FrameView>::empty() + delivered_to(m2, rest, r)) =~= m[r]
                        + delivered_to(m2, rest, r));
                }
            },
            OpView::SendTo(id, f) => {
                if id == r {
                    assert(m2[r] == m[r].push(f));
                    assert(m[r].push(f) =~= m[r] + seq![f]);
                    assert(m[r] + (seq![f] + delivered_to(m2, rest, r)) =~= (m[r] + seq![f])
                        + delivered_to(m2, rest, r));
                } else {
                    assert(m2[r] == m[r]);
                    assert(m[r] + (Seq::<FrameView>::empty() + delivered_to(m2, rest, r)) =~= m[r]
                        + delivered_to(m2, rest, r));
                }
            },
            OpView::Register(_) => {
                assert(m2[r] == m[r]);
                assert(m[r] + (Seq::<FrameView>::empty() + delivered_to(m2, rest, r)) =~= m[r]
                    + delivered_to(m2, rest, r));
            },
            OpView::Teardown(id) => {
                assert(id != r);
                assert(m2[r] == m[r]);
                assert(m[r] + (Seq::<FrameView>::empty() + delivered_to(m2, rest, r)) =~= m[r]
                    + delivered_to(m2, rest, r));
            },
            OpView::Pop(id) => {
                assert(id != r);
                assert(m2[r] == m[r]);
                assert(m[r] + (Seq::<FrameView>::empty() + delivered_to(m2, rest, r)) =~= m[r]
                    + delivered_to(m2, rest, r));
            },
        }
    }
}

/// Per-sender order: while a recipient `r` stays registered, what a trace
/// delivers to `r` from a sender `s` is exactly what `s` fanned out, in the
/// order `s` sent it.  With `lemma_queue_is_delivery_log`, `r`'s queue thus
/// holds `s`'s frames as a subsequence in `s`'s send order, however the
/// trace interleaves admissions, teardowns of others, and other senders.
pub proof fn lemma_per_sender_fifo(
    m: Map<u64, Seq<FrameView>>,
    ops: Seq<OpView>,
    r: u64,
    s: u64,
)
    requires
        m.dom().contains(r),
        r != s,
        undisturbed(ops, r),
    ensures
        delivered_to_from(m, ops, r, s) == sent_by(ops, s),
    decreases ops.len(),
{
    if ops.len() == 0 {
    } else {
        let op = ops.first();
        let m2 = apply_op(m, op);
        let rest = ops.drop_first();
        assert(ops[0] == op);
        assert(undisturbed(rest, r)) by {
            assert forall|i: int|
                0 <= i < rest.len() implies (match #[trigger] rest[i] {
                OpView::Teardown(id) => id != r,
                OpView::Pop(id) => id != r,
                _ => true,
            }) by {
                assert(rest[i] == ops[i + 1]);
            }
        }
        assert(m2.dom().contains(r));
        lemma_per_sender_fifo(m2, rest, r, s);
        assert(Seq::<FrameView>::empty() + sent_by(rest, s) =~= sent_by(rest, s));
        match op {
            OpView::FanOut(sender, f) => {
                if sender == s {
                    assert(delivered_to_from(m, ops, r, s) == seq![f] + sent_by(rest, s));
                    assert(sent_by(ops, s) == seq![f] + sent_by(rest, s));
                }
            },
            _ => {},
        }
    }
}

/// Teardown is final: an identity out of the registry and never re-admitted
/// stays out for the whole trace and is delivered nothing, whatever else
/// the trace does -- even if the identity's value is offered again as a
/// sender or an addressee.
pub proof fn lemma_teardown_is_final(m: Map<u64, Seq<FrameView>>, ops: Seq<OpView>, r: u64)
    requires
        !m.dom().contains(r),
        never_registered(ops, r),
    ensures
        !run(m, ops).dom().contains(r),
        delivered_to(m, ops, r) == Seq::<FrameView>::empty(),
    decreases ops.len(),
{
    if ops.len() == 0 {
    } else {
        let op = ops.first();
        let m2 = apply_op(m, op);
        let rest = ops.drop_first();
        assert(ops[0] == op);
        assert(never_registered(rest, r)) by {
            assert forall|i: int|
                0 <= i < rest.len() implies (match #[trigger] rest[i] {
                OpView::Register(id) => id != r,
                _ => true,
            }) by {
                assert(rest[i] == ops[i + 1]);
            }
        }
        assert(!m2.dom().contains(r));
        lemma_teardown_is_final(m2, rest, r);
        assert(delivered_to(m, ops, r) =~= Seq::<FrameView>::empty());
    }
}

/// A fan-out reaches exactly the registered identities other than the
/// sender: each gains the frame at the end of its queue; the sender's own
/// queue and the set of registered identities are unchanged, and an
/// unregistered identity gains nothing.
pub proof fn lemma_fan_out_targets(m: Map<u64, Seq<FrameView>>, sender: u64, f: FrameView)
    ensures
        fan_out_model(m, sender, f).dom() =~= m.dom(),
        forall|k: u64|
            m.dom().contains(k) && k != sender ==> #[trigger] fan_out_model(m, sender, f)[k]
                == m[k].push(f),
        m.dom().contains(sender) ==> fan_out_model(m, sender, f)[sender] == m[sender],
        forall|k: u64|
            !m.dom().contains(k) ==> !(#[trigger] fan_out_model(m, sender, f).dom().contains(k)),
{
}

/// A targeted send reaches exactly its addressee, and only if the
/// addressee is registered: no other queue and no other identity changes.
pub proof fn lemma_send_to_targets(m: Map<u64, Seq<FrameView>>, id: u64, f: FrameView)
    ensures
        send_to_model(m, id, f).dom() =~= m.dom(),
        m.dom().contains(id) ==> send_to_model(m, id, f)[id] == m[id].push(f),
        forall|k: u64|
            m.dom().contains(k) && k != id ==> #[trigger] send_to_model(m, id, f)[k] == m[k],
        !m.dom().contains(id) ==> send_to_model(m, id, f) == m,
{
}

} // verus!
