//! The message that carries a state across the boundary.

use crate::arc_cache::{ArcCacheDelta, CachedObject};
use crate::codec::{copy_bytes, option_blob_view};
use crate::context::Context;
use crate::deltas::{
    ContextSnapshotDeltas, Partition, FONT_DEFINITIONS_PARTITION, FRAME_PARTITION, STYLE_PARTITION,
};
use crate::error::SyncError;
use crate::state::ContextState;
use vstd::prelude::*;

verus! {

/// A snapshot: the payload of each partition that the receiver lacks, what
/// the sender's cache has named and let go of, and the sender's counters.
/// It is made for one transaction and consumed once.
pub struct ContextSnapshot {
    /// The sender's counters after the snapshot was taken.
    pub deltas: ContextSnapshotDeltas,
    /// The style partition: the id of the style in the cache.
    pub style: Option<Vec<u8>>,
    /// The font definitions.
    pub font_definitions: Option<Vec<u8>>,
    /// The frame partition.
    pub frame: Option<Vec<u8>>,
    /// What has changed in the sender's cache.
    pub cache_delta: ArcCacheDelta<Vec<u8>>,
}

/// A snapshot as mathematical values.
pub struct SnapshotSpec {
    /// The sender's counters after the snapshot was taken.
    pub deltas: ContextSnapshotDeltas,
    /// The payload of the style partition, if it is carried.
    pub style: Option<Seq<u8>>,
    /// The payload of the font definitions, if it is carried.
    pub font_definitions: Option<Seq<u8>>,
    /// The payload of the frame partition, if it is carried.
    pub frame: Option<Seq<u8>>,
    /// The counter of the sender's cache.
    pub id_counter: u64,
    /// The objects that the sender's cache has newly named.
    pub to_add: Seq<(u64, CachedObject<Vec<u8>>)>,
    /// The ids that the sender's cache has let go of.
    pub to_remove: Seq<u64>,
}

impl View for ContextSnapshot {
    type V = SnapshotSpec;

    open spec fn view(&self) -> SnapshotSpec {
        SnapshotSpec {
            deltas: self.deltas,
            style: option_blob_view(self.style),
            font_definitions: option_blob_view(self.font_definitions),
            frame: option_blob_view(self.frame),
            id_counter: self.cache_delta.id_counter,
            to_add: self.cache_delta.to_add@,
            to_remove: self.cache_delta.to_remove@,
        }
    }
}

impl SnapshotSpec {
    /// The payload of `partition`, if the snapshot carries one.
    pub open spec fn payload(self, partition: Partition) -> Option<Seq<u8>> {
        match partition {
            Partition::Style => self.style,
            Partition::FontDefinitions => self.font_definitions,
            Partition::Frame => self.frame,
        }
    }
}

/// The views of a list of partitions.
pub open spec fn partition_views(partitions: Seq<(u8, Vec<u8>)>) -> Seq<(u8, Seq<u8>)> {
    partitions.map_values(|partition: (u8, Vec<u8>)| (partition.0, partition.1@))
}

/// The payloads of the style, the font definitions and the frame that a
/// snapshot is assembled from.
pub struct Payloads {
    /// The payload of the style partition, if the list holds one.
    pub style: Option<Seq<u8>>,
    /// The payload of the font definitions, if the list holds one.
    pub font_definitions: Option<Seq<u8>>,
    /// The payload of the frame partition, if the list holds one.
    pub frame: Option<Seq<u8>>,
}

/// The payloads that a list of partitions holds, if the list is well formed:
/// every id is that of a partition, and no partition comes twice.
pub open spec fn assembled(partitions: Seq<(u8, Seq<u8>)>) -> Option<Payloads>
    decreases partitions.len(),
{
    if partitions.len() == 0 {
        Some(Payloads { style: None, font_definitions: None, frame: None })
    } else {
        let (id, payload) = partitions.last();
        match assembled(partitions.drop_last()) {
            Some(earlier) => if id == STYLE_PARTITION && earlier.style is None {
                Some(Payloads { style: Some(payload), ..earlier })
            } else if id == FONT_DEFINITIONS_PARTITION && earlier.font_definitions is None {
                Some(Payloads { font_definitions: Some(payload), ..earlier })
            } else if id == FRAME_PARTITION && earlier.frame is None {
                Some(Payloads { frame: Some(payload), ..earlier })
            } else {
                None
            },
            None => None,
        }
    }
}

impl SnapshotSpec {
    /// The partitions that the snapshot carries, each with the id under
    /// which it travels: style, font definitions, frame.
    pub open spec fn partitions(self) -> Seq<(u8, Seq<u8>)> {
        (match self.style {
            Some(payload) => seq![(STYLE_PARTITION, payload)],
            None => Seq::empty(),
        }) + (match self.font_definitions {
            Some(payload) => seq![(FONT_DEFINITIONS_PARTITION, payload)],
            None => Seq::empty(),
        }) + (match self.frame {
            Some(payload) => seq![(FRAME_PARTITION, payload)],
            None => Seq::empty(),
        })
    }

    /// The payloads of the snapshot.
    pub open spec fn payloads(self) -> Payloads {
        Payloads { style: self.style, font_definitions: self.font_definitions, frame: self.frame }
    }
}

/// The list of a snapshot's partitions is well formed and holds the
/// snapshot's payloads.
pub proof fn lemma_partitions_assemble(snapshot: SnapshotSpec)
    ensures
        assembled(snapshot.partitions()) == Some(snapshot.payloads()),
{
    let empty = Seq::<(u8, Seq<u8>)>::empty();
    let style = match snapshot.style {
        Some(payload) => seq![(STYLE_PARTITION, payload)],
        None => empty,
    };
    let fonts = match snapshot.font_definitions {
        Some(payload) => seq![(FONT_DEFINITIONS_PARTITION, payload)],
        None => empty,
    };
    let frame = match snapshot.frame {
        Some(payload) => seq![(FRAME_PARTITION, payload)],
        None => empty,
    };
    let none = Payloads { style: None, font_definitions: None, frame: None };
    assert(assembled(empty) == Some(none));
    assert(assembled(style) == Some(Payloads { style: snapshot.style, ..none })) by {
        if snapshot.style is Some {
            assert(style.drop_last() =~= empty);
        }
    }
    assert(assembled(style + fonts) == Some(
        Payloads {
            style: snapshot.style,
            font_definitions: snapshot.font_definitions,
            frame: None,
        },
    )) by {
        if snapshot.font_definitions is Some {
            assert((style + fonts).drop_last() =~= style);
        } else {
            assert(style + fonts =~= style);
        }
    }
    if snapshot.frame is Some {
        assert((style + fonts + frame).drop_last() =~= style + fonts);
    } else {
        assert(style + fonts + frame =~= style + fonts);
    }
}

/// A list whose beginning is malformed is malformed.
pub proof fn lemma_assembled_fails(partitions: Seq<(u8, Seq<u8>)>, first: int)
    requires
        0 <= first <= partitions.len(),
        assembled(partitions.take(first)) is None,
    ensures
        assembled(partitions) is None,
    decreases partitions.len() - first,
{
    if first < partitions.len() {
        assert(partitions.take(first + 1).drop_last() =~= partitions.take(first));
        lemma_assembled_fails(partitions, first + 1);
    } else {
        assert(partitions.take(first) =~= partitions);
    }
}

impl ContextSnapshot {
    /// Whether the snapshot carries a payload for `partition`.
    pub fn has(&self, partition: Partition) -> (present: bool)
        ensures
            present == self@.payload(partition) is Some,
    {
        match partition {
            Partition::Style => self.style.is_some(),
            Partition::FontDefinitions => self.font_definitions.is_some(),
            Partition::Frame => self.frame.is_some(),
        }
    }

    /// The partitions that the snapshot carries, each with the id under
    /// which it travels.
    pub fn partitions(&self) -> (list: Vec<(u8, Vec<u8>)>)
        ensures
            partition_views(list@) == self@.partitions(),
    {
        let mut list: Vec<(u8, Vec<u8>)> = Vec::new();
        match &self.style {
            Some(payload) => {
                list.push((Partition::Style.id(), copy_bytes(payload)));
            },
            None => {},
        }
        match &self.font_definitions {
            Some(payload) => {
                list.push((Partition::FontDefinitions.id(), copy_bytes(payload)));
            },
            None => {},
        }
        match &self.frame {
            Some(payload) => {
                list.push((Partition::Frame.id(), copy_bytes(payload)));
            },
            None => {},
        }
        assert(partition_views(list@) =~= self@.partitions());
        list
    }

    /// The snapshot that carries `partitions`. A list with an id that is no
    /// partition's, or with a partition that comes twice, is malformed.
    pub fn from_partitions(
        deltas: ContextSnapshotDeltas,
        partitions: &Vec<(u8, Vec<u8>)>,
        cache_delta: ArcCacheDelta<Vec<u8>>,
    ) -> (result: Result<Self, SyncError>)
        ensures
            match assembled(partition_views(partitions@)) {
                Some(payloads) => result matches Ok(snapshot) && snapshot@ == (SnapshotSpec {
                    deltas,
                    style: payloads.style,
                    font_definitions: payloads.font_definitions,
                    frame: payloads.frame,
                    id_counter: cache_delta.id_counter,
                    to_add: cache_delta.to_add@,
                    to_remove: cache_delta.to_remove@,
                }),
                None => result matches Err(error) && error == SyncError::EncodingError,
            },
    {
        let ghost all = partition_views(partitions@);
        let mut style: Option<Vec<u8>> = None;
        let mut font_definitions: Option<Vec<u8>> = None;
        let mut frame: Option<Vec<u8>> = None;
        let mut i: usize = 0;
        while i < partitions.len()
            invariant
                i <= partitions.len(),
                all == partition_views(partitions@),
                assembled(all.take(i as int)) == Some(
                    Payloads {
                        style: option_blob_view(style),
                        font_definitions: option_blob_view(font_definitions),
                        frame: option_blob_view(frame),
                    },
                ),
            decreases partitions.len() - i,
        {
            let id = partitions[i].0;
            proof {
                assert(all.take(i + 1).drop_last() =~= all.take(i as int));
                assert(all.take(i + 1).last() == (id, partitions@[i as int].1@));
            }
            let partition = Partition::from_id(id);
            if partition == Some(Partition::Style) && style.is_none() {
                style = Some(copy_bytes(&partitions[i].1));
            } else if partition == Some(Partition::FontDefinitions) && font_definitions.is_none() {
                font_definitions = Some(copy_bytes(&partitions[i].1));
            } else if partition == Some(Partition::Frame) && frame.is_none() {
                frame = Some(copy_bytes(&partitions[i].1));
            } else {
                proof {
                    lemma_assembled_fails(all, i + 1);
                }
                return Err(SyncError::EncodingError);
            }
            i += 1;
        }
        assert(all.take(partitions.len() as int) =~= all);
        Ok(ContextSnapshot { deltas, style, font_definitions, frame, cache_delta })
    }
}

/// A snapshot on one side of the boundary or the other.
///
/// On the sending side it is a request to take a snapshot of a context; the
/// snapshot is taken when the value is built. On the receiving side it is
/// the snapshot that arrived. To build what has arrived is a protocol
/// violation; what has not been built cannot be applied at all.
pub enum CreateContextSnapshot {
    /// A snapshot that has arrived.
    Created(ContextSnapshot),
    /// A snapshot that is to be taken, for a consumer with these counters.
    FromContext(ContextSnapshotDeltas),
}

impl CreateContextSnapshot {
    /// What applying this to a context in the state `state` returns.
    pub open spec fn outcome(self, state: ContextState) -> Result<(), SyncError> {
        match self {
            CreateContextSnapshot::Created(snapshot) => state.verdict(snapshot@),
            CreateContextSnapshot::FromContext(_) => Err(SyncError::ProtocolViolation),
        }
    }

    /// Applies the snapshot that has arrived to `context`, entirely or not at
    /// all. Only a snapshot that has arrived can be applied: a request to
    /// take one holds nothing to apply.
    pub fn apply(self, context: &mut Context) -> (result: Result<(), SyncError>)
        requires
            old(context).wf(),
            self is Created,
        ensures
            final(context).wf(),
            result == self.outcome(old(context)@),
            result is Ok ==> ({
                &&& self matches CreateContextSnapshot::Created(snapshot)
                &&& final(context)@ == old(context)@.applied(snapshot@)
            }),
            result is Err ==> final(context)@ == old(context)@,
    {
        match self {
            CreateContextSnapshot::Created(snapshot) => context.apply(snapshot),
            CreateContextSnapshot::FromContext(_) => Err(SyncError::ProtocolViolation),
        }
    }

    /// Takes the snapshot of `context` that was asked for. Whatever the
    /// cache lets go of meanwhile, the style in use is not among it. A
    /// snapshot that has arrived cannot be built again: that is a protocol
    /// violation.
    pub fn build(self, context: &mut Context) -> (result: Result<ContextSnapshot, SyncError>)
        requires
            old(context).wf(),
        ensures
            final(context).wf(),
            result is Ok <==> (self matches CreateContextSnapshot::FromContext(consumer)
                && old(context)@.can_capture(consumer)),
            result matches Ok(snapshot) ==> ({
                &&& self matches CreateContextSnapshot::FromContext(consumer)
                &&& old(context)@.cache.to_remove.len() <= snapshot@.to_remove.len()
                &&& old(context)@.cache_with_style(consumer).may_evict(
                    old(context)@.evictions(snapshot@),
                )
                &&& old(context)@.held_style(consumer) matches Some(id) ==> !old(
                    context,
                )@.evictions(snapshot@).contains(id)
                &&& snapshot@ == old(context)@.captured(
                    consumer,
                    old(context)@.evictions(snapshot@),
                )
                &&& final(context)@ == old(context)@.after_capture(
                    consumer,
                    old(context)@.evictions(snapshot@),
                )
            }),
            result matches Err(error) ==> error == SyncError::ProtocolViolation
                && final(context)@ == old(context)@,
    {
        match self {
            CreateContextSnapshot::Created(_) => Err(SyncError::ProtocolViolation),
            CreateContextSnapshot::FromContext(consumer) => context.capture(&consumer),
        }
    }
}

} // verus!
