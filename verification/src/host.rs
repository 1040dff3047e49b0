//! The host's side of the boundary.

use crate::context::Context;
use crate::deltas::ContextSnapshotDeltas;
use crate::error::SyncError;
use crate::snapshot::{ContextSnapshot, CreateContextSnapshot};
use vstd::prelude::*;

verus! {

/// The host's end of the call channel: it owns the authoritative context
/// and answers the two calls of a guest.
pub struct EguiHost {
    ctx: Context,
}

impl EguiHost {
    /// The state of the context that is shared with the guests.
    pub closed spec fn state(&self) -> crate::state::ContextState {
        self.ctx@
    }

    /// Whether the host's context is valid.
    pub open spec fn wf(&self) -> bool {
        self.state().wf()
    }

    /// A host with a context that has just been made.
    pub fn new() -> (host: Self)
        ensures
            host.wf(),
            host.state().style.identity == 0,
            host.state().style.value@ == Seq::<u8>::empty(),
            host.state() == crate::state::ContextState::fresh(host.state().style),
    {
        EguiHost { ctx: Context::default() }
    }

    /// The context that is shared with the guests.
    pub fn context(&self) -> (ctx: &Context)
        ensures
            ctx@ == self.state(),
    {
        &self.ctx
    }

    /// The context that is shared with the guests, to change it.
    pub fn context_mut(&mut self) -> (ctx: &mut Context)
        ensures
            ctx@ == old(self).state(),
            final(self).state() == final(ctx)@,
    {
        &mut self.ctx
    }

    /// Sets the context that is shared with the guests.
    pub fn set_context(&mut self, ctx: Context)
        ensures
            final(self).state() == ctx@,
    {
        self.ctx = ctx;
    }

    /// Answers a guest that begins a transaction: takes the snapshot for a
    /// consumer with the guest's counters.
    pub fn begin_context_edit(&mut self, deltas: ContextSnapshotDeltas) -> (result: Result<
        ContextSnapshot,
        SyncError,
    >)
        requires
            old(self).wf(),
        ensures
            final(self).wf(),
            result is Ok <==> old(self).state().can_capture(deltas),
            result matches Ok(snapshot) ==> {
                &&& snapshot@ == old(self).state().captured(
                    deltas,
                    old(self).state().evictions(snapshot@),
                )
                &&& final(self).state() == old(self).state().after_capture(
                    deltas,
                    old(self).state().evictions(snapshot@),
                )
            },
            result matches Err(error) ==> error == SyncError::ProtocolViolation
                && final(self).state() == old(self).state(),
    {
        CreateContextSnapshot::FromContext(deltas).build(&mut self.ctx)
    }

    /// Answers a guest that ends a transaction: overwrites the shared
    /// context with the guest's state, entirely or not at all. What the
    /// guest hands over is a snapshot that has arrived.
    pub fn end_context_edit(&mut self, state: CreateContextSnapshot) -> (result: Result<
        (),
        SyncError,
    >)
        requires
            old(self).wf(),
            state is Created,
        ensures
            final(self).wf(),
            result == state.outcome(old(self).state()),
            result is Ok ==> ({
                &&& state matches CreateContextSnapshot::Created(snapshot)
                &&& final(self).state() == old(self).state().applied(snapshot@)
            }),
            result is Err ==> final(self).state() == old(self).state(),
    {
        state.apply(&mut self.ctx)
    }
}

} // verus!
