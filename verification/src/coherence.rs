//! Why an accepted read shows one committed state.
//!
//! While a reader loads the words of a publication, the audio side may begin,
//! write and commit transactions, and the editor may change the selection.
//! What a reader can meet is a history of publications, one after another.

use crate::publication::{Presentation, WaveformPublication};
use crate::view::PublicationLoads;
use vstd::prelude::*;

verus! {

/// How many of the steps from `first` to `last` moved the outer sequence.
pub open spec fn advances(history: Seq<WaveformPublication>, first: int, last: int) -> nat
    decreases last - first,
{
    if last <= first {
        0
    } else {
        advances(history, first, last - 1) + if history[last - 1].transport_sequence
            == history[last].transport_sequence {
            0nat
        } else {
            1nat
        }
    }
}

/// Every publication follows from the one before it by one step.
pub open spec fn is_history(history: Seq<WaveformPublication>) -> bool {
    forall|at: int|
        0 <= at < history.len() - 1 ==> crate::publication::shared_step(
            #[trigger] history[at],
            history[at + 1],
        )
}

/// Something held at some moment from `first` to `last`.
pub open spec fn held(
    history: Seq<WaveformPublication>,
    first: int,
    last: int,
    fact: spec_fn(WaveformPublication) -> bool,
) -> bool {
    exists|at: int| first <= at <= last && fact(#[trigger] history[at])
}

/// Every word was loaded at some moment from `first` to `last`: the outer
/// sequence at the two ends, and the others, each envelope column by itself,
/// in between.
pub open spec fn loaded_between(
    loads: PublicationLoads,
    history: Seq<WaveformPublication>,
    first: int,
    last: int,
) -> bool {
    let slot = loads.slot;
    let live_slot = loads.live_slot;
    let active = loads.active_slot as int;
    let live_active = loads.live_active_slot as int;
    &&& 0 <= first <= last < history.len()
    &&& loads.presentation_sequence == history[first].transport_sequence
    &&& loads.end_presentation_sequence == history[last].transport_sequence
    &&& held(history, first, last, |p: WaveformPublication| p.active_slot == loads.active_slot)
    &&& held(
        history,
        first,
        last,
        |p: WaveformPublication| p.slots@[active].revision == slot.revision,
    )
    &&& held(history, first, last, |p: WaveformPublication| p.slots@[active].mode == slot.mode)
    &&& held(
        history,
        first,
        last,
        |p: WaveformPublication| p.slots@[active].window_raw == slot.window_raw,
    )
    &&& held(
        history,
        first,
        last,
        |p: WaveformPublication| p.slots@[active].tempo_bits == slot.tempo_bits,
    )
    &&& held(
        history,
        first,
        last,
        |p: WaveformPublication| p.slots@[active].beat_index == slot.beat_index,
    )
    &&& held(
        history,
        first,
        last,
        |p: WaveformPublication| p.slots@[active].beat_index_valid == slot.beat_index_valid,
    )
    &&& held(
        history,
        first,
        last,
        |p: WaveformPublication| p.slots@[active].sample_count == slot.sample_count,
    )
    &&& forall|bin: int|
        0 <= bin < crate::envelope::ENVELOPE_BINS ==> held(
            history,
            first,
            last,
            |p: WaveformPublication|
                p.slots@[active].envelope@[bin] == #[trigger] slot.envelope@[bin],
        )
    &&& held(
        history,
        first,
        last,
        |p: WaveformPublication| p.live_active_slot == loads.live_active_slot,
    )
    &&& held(
        history,
        first,
        last,
        |p: WaveformPublication| p.live_slots@[live_active].revision == live_slot.revision,
    )
    &&& held(
        history,
        first,
        last,
        |p: WaveformPublication| p.live_slots@[live_active].valid == live_slot.valid,
    )
    &&& held(
        history,
        first,
        last,
        |p: WaveformPublication| p.live_slots@[live_active].mode == live_slot.mode,
    )
    &&& held(
        history,
        first,
        last,
        |p: WaveformPublication| p.live_slots@[live_active].window_raw == live_slot.window_raw,
    )
    &&& held(
        history,
        first,
        last,
        |p: WaveformPublication| p.live_slots@[live_active].tempo_bits == live_slot.tempo_bits,
    )
    &&& held(
        history,
        first,
        last,
        |p: WaveformPublication| p.live_slots@[live_active].beat_index == live_slot.beat_index,
    )
    &&& held(
        history,
        first,
        last,
        |p: WaveformPublication|
            p.live_slots@[live_active].beat_index_valid == live_slot.beat_index_valid,
    )
    &&& held(
        history,
        first,
        last,
        |p: WaveformPublication| p.live_slots@[live_active].sample_count == live_slot.sample_count,
    )
    &&& held(
        history,
        first,
        last,
        |p: WaveformPublication|
            p.live_slots@[live_active].target_sample_count == live_slot.target_sample_count,
    )
    &&& forall|bin: int|
        0 <= bin < crate::envelope::ENVELOPE_BINS ==> held(
            history,
            first,
            last,
            |p: WaveformPublication|
                p.live_slots@[live_active].envelope@[bin] == #[trigger] live_slot.envelope@[bin],
        )
    &&& held(
        history,
        first,
        last,
        |p: WaveformPublication| p.live_active_valid == loads.live_active_valid,
    )
    &&& held(
        history,
        first,
        last,
        |p: WaveformPublication| p.current_tempo_bits == loads.current_tempo_bits,
    )
    &&& held(
        history,
        first,
        last,
        |p: WaveformPublication| p.current_position_valid == loads.current_position_valid,
    )
    &&& held(
        history,
        first,
        last,
        |p: WaveformPublication| p.current_position_bits == loads.current_position_bits,
    )
    &&& held(history, first, last, |p: WaveformPublication| p.is_playing == loads.is_playing)
    &&& held(
        history,
        first,
        last,
        |p: WaveformPublication| p.timeline_available == loads.timeline_available,
    )
}

proof fn lemma_advances_grow(
    history: Seq<WaveformPublication>,
    first: int,
    middle: int,
    last: int,
)
    requires
        first <= middle <= last,
    ensures
        advances(history, first, middle) <= advances(history, first, last),
    decreases last - middle,
{
    if middle < last {
        lemma_advances_grow(history, first, middle, last - 1);
    }
}

proof fn lemma_following_wraps(count: nat)
    ensures
        crate::publication::following((count % 0x1_0000_0000_0000_0000) as u64) == (count + 1)
            % 0x1_0000_0000_0000_0000,
{
}

proof fn lemma_sequence_counts_advances(
    history: Seq<WaveformPublication>,
    first: int,
    last: int,
)
    requires
        is_history(history),
        0 <= first <= last < history.len(),
    ensures
        history[last].transport_sequence == (history[first].transport_sequence + advances(
            history,
            first,
            last,
        )) % 0x1_0000_0000_0000_0000,
        advances(history, first, last) <= last - first,
    decreases last - first,
{
    if first < last {
        let before = history[last - 1].transport_sequence;
        let after = history[last].transport_sequence;
        let count = history[first].transport_sequence as nat + advances(history, first, last - 1);
        lemma_sequence_counts_advances(history, first, last - 1);
        lemma_following_wraps(count);
        assert(crate::publication::shared_step(history[last - 1], history[last - 1 + 1]));
        assert(before == count % 0x1_0000_0000_0000_0000);
        assert(before == after || after == crate::publication::following(before));
    }
}

proof fn lemma_payload_stays(
    history: Seq<WaveformPublication>,
    first: int,
    last: int,
    at: int,
)
    requires
        is_history(history),
        0 <= first <= at <= last < history.len(),
        last - first < 0x1_0000_0000_0000_0000,
        history[first].transport_sequence % 2 == 0,
        history[last].transport_sequence == history[first].transport_sequence,
    ensures
        crate::publication::same_payload(history[first], history[at]),
        history[at].transport_sequence == history[first].transport_sequence,
    decreases at - first,
{
    lemma_sequence_counts_advances(history, first, last);
    lemma_sequence_counts_advances(history, first, at);
    lemma_advances_grow(history, first, at, last);
    if first < at {
        lemma_payload_stays(history, first, last, at - 1);
        lemma_sequence_counts_advances(history, first, at - 1);
        assert(crate::publication::shared_step(history[at - 1], history[at - 1 + 1]));
    }
}

/// A read that is accepted shows one committed publication, the one that it
/// started on, however the writes of other transactions fell between its
/// loads. Only the redraw count may be a later one. A read spans fewer steps
/// than the outer sequence has values.
pub proof fn accepted_reads_are_coherent(
    loads: PublicationLoads,
    history: Seq<WaveformPublication>,
    first: int,
    last: int,
)
    requires
        is_history(history),
        loaded_between(loads, history, first, last),
        last - first < 0x1_0000_0000_0000_0000,
        loads.coherent(),
        history[first].wf(),
    ensures
        history[first]@.idle(),
        loads.presentation() == (Presentation {
            redraw_revision: loads.redraw_revision,
            ..history[first]@.presentation()
        }),
{
    let start = history[first];
    assert forall|at: int| first <= at <= last implies crate::publication::same_payload(
        start,
        #[trigger] history[at],
    ) by {
        lemma_payload_stays(history, first, last, at);
    }
    let active = start.active_slot as int;
    let live_active = start.live_active_slot as int;
    assert(loads.active_slot == active);
    assert(loads.live_active_slot == live_active);
    assert forall|bin: int| 0 <= bin < crate::envelope::ENVELOPE_BINS implies loads.slot.envelope@[bin]
        == start.slots@[active].envelope@[bin] by {
        let fact = |p: WaveformPublication|
            p.slots@[active].envelope@[bin] == loads.slot.envelope@[bin];
        assert(held(history, first, last, fact));
    }
    assert forall|bin: int| 0 <= bin < crate::envelope::ENVELOPE_BINS implies loads.live_slot.envelope@[bin]
        == start.live_slots@[live_active].envelope@[bin] by {
        let fact = |p: WaveformPublication|
            p.live_slots@[live_active].envelope@[bin] == loads.live_slot.envelope@[bin];
        assert(held(history, first, last, fact));
    }
    assert(loads.slot.envelope@ =~= start.slots@[active].envelope@);
    assert(loads.live_slot.envelope@ =~= start.live_slots@[live_active].envelope@);
    assert(loads.slot.state() =~= start.slots@[active].state());
}

} // verus!
