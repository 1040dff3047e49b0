//! Version counters: one per partition of the shared state.
//!
//! A partition's counter moves on when the partition's content has changed
//! since the state was last captured or overwritten. Two sets of counters
//! can be compared only where both come from the same line of states; then a
//! partition has to be sent exactly if its two counters differ.

use vstd::prelude::*;

verus! {

/// The partitions of the shared state, each with a counter of its own.
#[derive(Clone, Copy, Debug, PartialEq, Eq, Structural)]
pub enum Partition {
    /// The style sheet, a cached object.
    Style,
    /// The installed font definitions.
    FontDefinitions,
    /// Memory, options and viewports: what each frame changes.
    Frame,
}

/// The id under which the style partition travels.
pub const STYLE_PARTITION: u8 = 1;

/// The id under which the font definitions travel.
pub const FONT_DEFINITIONS_PARTITION: u8 = 2;

/// The id under which the frame partition travels.
pub const FRAME_PARTITION: u8 = 3;

impl Partition {
    /// The id under which the partition travels.
    pub open spec fn spec_id(self) -> u8 {
        match self {
            Partition::Style => STYLE_PARTITION,
            Partition::FontDefinitions => FONT_DEFINITIONS_PARTITION,
            Partition::Frame => FRAME_PARTITION,
        }
    }

    /// The id under which the partition travels.
    #[verifier::when_used_as_spec(spec_id)]
    pub fn id(self) -> (id: u8)
        ensures
            id == self.spec_id(),
    {
        match self {
            Partition::Style => STYLE_PARTITION,
            Partition::FontDefinitions => FONT_DEFINITIONS_PARTITION,
            Partition::Frame => FRAME_PARTITION,
        }
    }

    /// The partition that travels under `id`, if there is one.
    pub fn from_id(id: u8) -> (partition: Option<Partition>)
        ensures
            match partition {
                Some(found) => found.spec_id() == id,
                None => id != STYLE_PARTITION && id != FONT_DEFINITIONS_PARTITION && id
                    != FRAME_PARTITION,
            },
    {
        if id == STYLE_PARTITION {
            Some(Partition::Style)
        } else if id == FONT_DEFINITIONS_PARTITION {
            Some(Partition::FontDefinitions)
        } else if id == FRAME_PARTITION {
            Some(Partition::Frame)
        } else {
            None
        }
    }
}

/// The counter that follows `counter`. It is never 0 and never `counter`
/// itself: 0 is kept for "nothing seen yet".
pub open spec fn advanced(counter: u64) -> u64 {
    if counter == u64::MAX {
        1
    } else {
        (counter + 1) as u64
    }
}

/// The counter that follows `counter`.
pub fn advance(counter: u64) -> (next: u64)
    ensures
        next == advanced(counter),
        next != counter,
        next >= 1,
{
    if counter == u64::MAX {
        1
    } else {
        counter + 1
    }
}

/// The version counters of a state.
#[derive(Clone, Copy, Debug, PartialEq, Eq, Structural)]
pub struct ContextSnapshotDeltas {
    /// The counter of the frame partition.
    pub frame_count: u64,
    /// The counter of the style.
    pub style_count: u64,
    /// The counter of the font definitions.
    pub font_definitions_count: u64,
}

impl Default for ContextSnapshotDeltas {
    /// The counters of a consumer that has seen nothing: they differ from
    /// the counters of every state in every partition.
    fn default() -> (deltas: Self)
        ensures
            deltas == Self::nothing_seen(),
    {
        ContextSnapshotDeltas { frame_count: 0, style_count: 0, font_definitions_count: 0 }
    }
}

impl ContextSnapshotDeltas {
    /// The counters of a consumer that has seen nothing.
    pub open spec fn nothing_seen() -> Self {
        ContextSnapshotDeltas { frame_count: 0, style_count: 0, font_definitions_count: 0 }
    }

    /// Whether these can be the counters of a state: none of them is 0.
    pub open spec fn of_a_state(self) -> bool {
        self.frame_count >= 1 && self.style_count >= 1 && self.font_definitions_count >= 1
    }

    /// The counter of `partition`.
    pub open spec fn counter(self, partition: Partition) -> u64 {
        match partition {
            Partition::Style => self.style_count,
            Partition::FontDefinitions => self.font_definitions_count,
            Partition::Frame => self.frame_count,
        }
    }

    /// Whether `partition` has changed between these counters and `newer`.
    pub open spec fn changed(self, newer: Self, partition: Partition) -> bool {
        self.counter(partition) != newer.counter(partition)
    }

    /// The partitions that have changed between these counters and `newer`,
    /// in the order in which they travel.
    pub open spec fn spec_diff(self, newer: Self) -> Seq<Partition> {
        (if self.changed(newer, Partition::Style) {
            seq![Partition::Style]
        } else {
            Seq::empty()
        }) + (if self.changed(newer, Partition::FontDefinitions) {
            seq![Partition::FontDefinitions]
        } else {
            Seq::empty()
        }) + (if self.changed(newer, Partition::Frame) {
            seq![Partition::Frame]
        } else {
            Seq::empty()
        })
    }

    /// The counter of `partition`.
    pub fn count(&self, partition: Partition) -> (counter: u64)
        ensures
            counter == self.counter(partition),
    {
        match partition {
            Partition::Style => self.style_count,
            Partition::FontDefinitions => self.font_definitions_count,
            Partition::Frame => self.frame_count,
        }
    }

    /// Whether every counter is at least 1.
    pub fn is_of_a_state(&self) -> (valid: bool)
        ensures
            valid == self.of_a_state(),
    {
        self.frame_count >= 1 && self.style_count >= 1 && self.font_definitions_count >= 1
    }

    /// The partitions whose counters differ between these counters and
    /// `newer`: the ones that a consumer with these counters has to be sent.
    pub fn diff(&self, newer: &ContextSnapshotDeltas) -> (partitions: Vec<Partition>)
        ensures
            partitions@ == self.spec_diff(*newer),
            forall|partition: Partition|
                partitions@.contains(partition) <==> self.changed(*newer, partition),
    {
        let mut partitions: Vec<Partition> = Vec::new();
        if self.style_count != newer.style_count {
            partitions.push(Partition::Style);
        }
        if self.font_definitions_count != newer.font_definitions_count {
            partitions.push(Partition::FontDefinitions);
        }
        if self.frame_count != newer.frame_count {
            partitions.push(Partition::Frame);
        }
        proof {
            assert(partitions@ =~= self.spec_diff(*newer));
            lemma_diff_members(*self, *newer);
        }
        partitions
    }
}

/// A partition is in the difference of two sets of counters exactly if its
/// counters differ.
pub proof fn lemma_diff_members(older: ContextSnapshotDeltas, newer: ContextSnapshotDeltas)
    ensures
        forall|partition: Partition|
            #![trigger older.spec_diff(newer).contains(partition)]
            older.spec_diff(newer).contains(partition) <==> older.changed(newer, partition),
{
    let style: Seq<Partition> = if older.changed(newer, Partition::Style) {
        seq![Partition::Style]
    } else {
        Seq::empty()
    };
    let fonts: Seq<Partition> = if older.changed(newer, Partition::FontDefinitions) {
        seq![Partition::FontDefinitions]
    } else {
        Seq::empty()
    };
    let frame: Seq<Partition> = if older.changed(newer, Partition::Frame) {
        seq![Partition::Frame]
    } else {
        Seq::empty()
    };
    let all = older.spec_diff(newer);
    assert(all == style + fonts + frame);
    assert forall|partition: Partition| #![trigger all.contains(partition)]
        all.contains(partition) <==> older.changed(newer, partition) by {
        if older.changed(newer, partition) {
            match partition {
                Partition::Style => {
                    assert(all[0] == partition);
                },
                Partition::FontDefinitions => {
                    assert(all[style.len() as int] == partition);
                },
                Partition::Frame => {
                    assert(all[(style.len() + fonts.len()) as int] == partition);
                },
            }
        }
        if all.contains(partition) {
            let k = choose|k: int| 0 <= k < all.len() && all[k] == partition;
            if k < style.len() {
                assert(style[k] == partition);
            } else if k < style.len() + fonts.len() {
                assert(fonts[k - style.len()] == partition);
            } else {
                assert(frame[k - style.len() - fonts.len()] == partition);
            }
        }
    }
}

} // verus!
