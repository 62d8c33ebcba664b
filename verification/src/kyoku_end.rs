//! The events that close a kyoku.
use vstd::prelude::*;

use crate::event::{copy_vec, events_view, Event, EventV};
use crate::tenhou::{EndStatus, EndStatusV, HoraDetail, HoraDetailV, Kyoku, KyokuV};

verus! {

pub open spec fn hora_event(d: HoraDetailV, ura: Seq<crate::tile::Tile>) -> EventV {
    EventV::Hora {
        actor: d.who,
        target: d.target,
        deltas: Some(d.score_deltas),
        ura_markers: Some(ura),
    }
}

/// The result events of a kyoku followed by `end_kyoku`: one hora per winner with the
/// recorded deltas and the ura indicators, or one ryukyoku with the recorded deltas.
pub open spec fn end_events(k: KyokuV) -> Seq<EventV> {
    match k.end_status {
        EndStatusV::Hora { details } => details.map_values(
            |d: HoraDetailV| hora_event(d, k.ura_indicators),
        ).push(EventV::EndKyoku),
        EndStatusV::Ryukyoku { score_deltas } => seq![
            EventV::Ryukyoku { deltas: Some(score_deltas) },
            EventV::EndKyoku,
        ],
    }
}

/// Appends the result events of `kyoku` and `end_kyoku` to `events`.
pub fn end_kyoku(events: &mut Vec<Event>, kyoku: &Kyoku)
    ensures
        events_view(final(events)@) == events_view(old(events)@) + end_events(kyoku@),
{
    let ghost start = events_view(events@);
    match &kyoku.end_status {
        EndStatus::Hora { details } => {
            let mut i: usize = 0;
            while i < details.len()
                invariant
                    i <= details@.len(),
                    kyoku.end_status == (EndStatus::Hora { details: *details }),
                    events_view(events@) == start + details@.take(i as int).map_values(
                        |d: HoraDetail| hora_event(d@, kyoku.ura_indicators@),
                    ),
                decreases details.len() - i,
            {
                let detail = &details[i];
                let ev = Event::Hora {
                    actor: detail.who,
                    target: detail.target,
                    deltas: Some(copy_vec(&detail.score_deltas)),
                    ura_markers: Some(copy_vec(&kyoku.ura_indicators)),
                };
                let ghost before = events_view(events@);
                events.push(ev);
                assert(events_view(events@) =~= before.push(ev@));
                assert(details@.take(i + 1).map_values(
                    |d: HoraDetail| hora_event(d@, kyoku.ura_indicators@),
                ) =~= details@.take(i as int).map_values(
                    |d: HoraDetail| hora_event(d@, kyoku.ura_indicators@),
                ).push(ev@));
                i += 1;
            }
            let ghost before = events_view(events@);
            events.push(Event::EndKyoku);
            assert(events_view(events@) =~= before.push(EventV::EndKyoku));
            assert(details@.take(details@.len() as int) =~= details@);
            assert(details@.map_values(|d: HoraDetail| hora_event(d@, kyoku.ura_indicators@))
                =~= crate::tenhou::details_view(details@).map_values(
                |d: HoraDetailV| hora_event(d, kyoku.ura_indicators@),
            ));
        },
        EndStatus::Ryukyoku { score_deltas } => {
            let ghost before = events_view(events@);
            let ev = Event::Ryukyoku { deltas: Some(copy_vec(score_deltas)) };
            events.push(ev);
            events.push(Event::EndKyoku);
            assert(events_view(events@) =~= before + seq![ev@, EventV::EndKyoku]);
        },
    }
}

} // verus!
