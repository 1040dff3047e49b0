//! The guest's side of the boundary: one transaction at a time.
//!
//! A transaction is begun with the counters of the guest's copy, opened
//! with the snapshot that the host answered, and committed with a snapshot
//! of what the guest changed. The calls across the boundary are made by the
//! owner of the handle; the handle decides what is sent and what becomes of
//! what arrives.

use crate::context::Context;
use crate::state::ContextState;
use crate::deltas::ContextSnapshotDeltas;
use crate::error::SyncError;
use crate::snapshot::{ContextSnapshot, CreateContextSnapshot};
use vstd::prelude::*;

verus! {

/// Where a guest stands between two transactions or within one.
#[derive(Clone, Copy, Debug, PartialEq, Eq, Structural)]
pub enum TransactionState {
    /// No transaction is under way.
    Idle,
    /// A snapshot was asked for and has not arrived yet.
    Requested,
    /// The snapshot has been applied; the guest works on its copy.
    Open,
}

/// A guest's handle as mathematical values.
pub struct HandleState {
    /// The guest's copy of the state.
    pub context: ContextState,
    /// Whether the copy has ever taken over a snapshot.
    pub synchronized: bool,
    /// Where the guest stands.
    pub state: TransactionState,
    /// While a snapshot is awaited, the counters that were sent for it;
    /// while a transaction is open, the counters with which it was opened.
    pub initial_deltas: ContextSnapshotDeltas,
}

impl HandleState {
    /// The invariant of a handle.
    pub open spec fn wf(self) -> bool {
        self.context.wf()
    }

    /// What opening a transaction with `snapshot` returns: what applying the
    /// snapshot to the copy returns where a snapshot is awaited, a protocol
    /// violation else.
    pub open spec fn opening(self, snapshot: CreateContextSnapshot) -> Result<(), SyncError> {
        if self.state == TransactionState::Requested {
            snapshot.outcome(self.context)
        } else {
            Err(SyncError::ProtocolViolation)
        }
    }

    /// The handle after a transaction was begun.
    pub open spec fn begun(self) -> Self {
        if self.synchronized {
            HandleState {
                state: TransactionState::Requested,
                initial_deltas: self.context.current_deltas(),
                ..self
            }
        } else {
            HandleState {
                state: TransactionState::Requested,
                initial_deltas: ContextSnapshotDeltas::nothing_seen(),
                ..self
            }
        }
    }
}

/// A guest's access to the shared context. It holds the guest's copy and
/// admits one transaction at a time.
pub struct EguiHandle {
    context: Context,
    synchronized: bool,
    state: TransactionState,
    initial_deltas: ContextSnapshotDeltas,
}

impl View for EguiHandle {
    type V = HandleState;

    closed spec fn view(&self) -> HandleState {
        HandleState {
            context: self.context@,
            synchronized: self.synchronized,
            state: self.state,
            initial_deltas: self.initial_deltas,
        }
    }
}

impl EguiHandle {
    /// Whether the handle's invariant holds.
    pub open spec fn wf(&self) -> bool {
        self@.wf()
    }

    /// A handle that has seen nothing: its copy is a context that has just
    /// been made, and its first transaction asks for everything.
    pub fn new() -> (handle: Self)
        ensures
            handle.wf(),
            handle@.state == TransactionState::Idle,
            !handle@.synchronized,
            handle@.context.style.identity == 0,
            handle@.context.style.value@ == Seq::<u8>::empty(),
            handle@.context == ContextState::fresh(handle@.context.style),
    {
        EguiHandle {
            context: Context::default(),
            synchronized: false,
            state: TransactionState::Idle,
            initial_deltas: ContextSnapshotDeltas::default(),
        }
    }

    /// Where the guest stands.
    pub fn state(&self) -> (state: TransactionState)
        ensures
            state == self@.state,
    {
        self.state
    }

    /// Begins a transaction and says with which counters the snapshot is to
    /// be asked for: those of a consumer that has seen nothing while the
    /// copy has never taken over a snapshot, the copy's own afterwards.
    ///
    /// While a transaction is under way another cannot begin: that is a
    /// protocol violation, and nothing changes.
    pub fn begin(&mut self) -> (result: Result<ContextSnapshotDeltas, SyncError>)
        requires
            old(self).wf(),
        ensures
            final(self).wf(),
            result is Ok <==> old(self)@.state == TransactionState::Idle,
            result matches Ok(deltas) ==> final(self)@ == old(self)@.begun()
                && deltas == final(self)@.initial_deltas,
            result matches Err(error) ==> error == SyncError::ProtocolViolation && final(self)@
                == old(self)@,
    {
        if self.state != TransactionState::Idle {
            return Err(SyncError::ProtocolViolation);
        }
        let deltas = if self.synchronized {
            ContextSnapshotDeltas::from_context(&self.context)
        } else {
            ContextSnapshotDeltas::default()
        };
        self.state = TransactionState::Requested;
        self.initial_deltas = deltas;
        Ok(deltas)
    }

    /// Opens the transaction with the snapshot that the host answered: the
    /// snapshot is applied to the copy, entirely or not at all.
    ///
    /// A snapshot that nobody asked for is a protocol violation and changes
    /// nothing. A snapshot that is rejected, or a request in place of a
    /// snapshot, ends the transaction and leaves the copy as it was.
    pub fn open(&mut self, snapshot: CreateContextSnapshot) -> (result: Result<(), SyncError>)
        requires
            old(self).wf(),
        ensures
            final(self).wf(),
            result == old(self)@.opening(snapshot),
            result is Ok ==> ({
                &&& snapshot matches CreateContextSnapshot::Created(arrived)
                &&& final(self)@ == (HandleState {
                    context: old(self)@.context.applied(arrived@),
                    synchronized: true,
                    state: TransactionState::Open,
                    initial_deltas: arrived@.deltas,
                })
            }),
            result is Err ==> final(self)@ == (HandleState {
                state: if old(self)@.state == TransactionState::Requested {
                    TransactionState::Idle
                } else {
                    old(self)@.state
                },
                ..old(self)@
            }),
    {
        if self.state != TransactionState::Requested {
            return Err(SyncError::ProtocolViolation);
        }
        if let CreateContextSnapshot::FromContext(_) = snapshot {
            self.state = TransactionState::Idle;
            return Err(SyncError::ProtocolViolation);
        }
        match snapshot.apply(&mut self.context) {
            Ok(()) => {
                self.synchronized = true;
                self.state = TransactionState::Open;
                self.initial_deltas = ContextSnapshotDeltas::from_context(&self.context);
                Ok(())
            },
            Err(error) => {
                self.state = TransactionState::Idle;
                Err(error)
            },
        }
    }

    /// The guest's copy of the state.
    pub fn context(&self) -> (context: &Context)
        ensures
            context@ == self@.context,
    {
        &self.context
    }

    /// The guest's copy of the state, to change it while the transaction is
    /// open.
    pub fn context_mut(&mut self) -> (context: &mut Context)
        requires
            old(self)@.state == TransactionState::Open,
        ensures
            context@ == old(self)@.context,
            final(self)@ == (HandleState { context: final(context)@, ..old(self)@ }),
    {
        &mut self.context
    }

    /// Commits the transaction: takes the snapshot of the copy for a
    /// consumer with the counters with which the transaction was opened, to
    /// be handed to the host. The transaction is over either way.
    ///
    /// Where no transaction is open, that is a protocol violation and
    /// nothing changes.
    pub fn commit(&mut self) -> (result: Result<ContextSnapshot, SyncError>)
        requires
            old(self).wf(),
        ensures
            final(self).wf(),
            result is Ok <==> old(self)@.state == TransactionState::Open
                && old(self)@.context.can_capture(old(self)@.initial_deltas),
            result matches Ok(snapshot) ==> ({
                &&& snapshot@ == old(self)@.context.captured(
                    old(self)@.initial_deltas,
                    old(self)@.context.evictions(snapshot@),
                )
                &&& final(self)@ == (HandleState {
                    context: old(self)@.context.after_capture(
                        old(self)@.initial_deltas,
                        old(self)@.context.evictions(snapshot@),
                    ),
                    state: TransactionState::Idle,
                    ..old(self)@
                })
            }),
            result matches Err(error) ==> ({
                &&& error == SyncError::ProtocolViolation
                &&& final(self)@.context == old(self)@.context
                &&& old(self)@.state != TransactionState::Open ==> final(self)@ == old(self)@
                &&& old(self)@.state == TransactionState::Open ==> final(self)@.state
                    == TransactionState::Idle
            }),
    {
        if self.state != TransactionState::Open {
            return Err(SyncError::ProtocolViolation);
        }
        self.state = TransactionState::Idle;
        CreateContextSnapshot::FromContext(self.initial_deltas).build(&mut self.context)
    }

    /// Gives up the transaction that is under way, after the call across
    /// the boundary has failed, and hands out the error for the caller to
    /// pass on. The copy stays as it is.
    pub fn cancel(&mut self) -> (error: SyncError)
        ensures
            error == SyncError::ChannelError,
            final(self)@ == (HandleState { state: TransactionState::Idle, ..old(self)@ }),
    {
        self.state = TransactionState::Idle;
        SyncError::ChannelError
    }
}

} // verus!
