//! Conversion of a whole tenhou.net/6 log into mjai events.
use vstd::prelude::*;

use crate::error::{ConvertError, ConvertErrorV};
use crate::event::{copy_strings, copy_vec, events_view, strings_view, Event, EventV};
use crate::sanma::{sanma_kyoku_events, tenhou_sanma_kyoku_to_mjai_events};
use crate::sanma_laws::framed_kyoku;
use crate::tenhou::{kyokus_view, ActionTable, ActionTableV, Kyoku, KyokuV, Log};
use crate::tile::{group_tile_ids, tile_from_id, Tile};
use crate::validate::{sanma_event_check, sanma_events_check, validate_sanma_mjai};
use crate::yonma::{tenhou_yonma_kyoku_to_mjai_events, yonma_kyoku_events};

verus! {

broadcast use group_tile_ids;

/// The round wind of a kyoku number: east for 0..=3, south for 4..=7, west for 8..=11,
/// north beyond. Three-player logs number their rounds on the same grid.
pub open spec fn bakaze_of(kyoku_num: u8) -> Tile {
    let round = kyoku_num / 4;
    tile_from_id(
        if round < 3 {
            (27 + round) as u8
        } else {
            30
        },
    )
}

/// The `start_kyoku` event of a kyoku: its round wind, its number within the wind
/// (counted from 1), its counters, the first dora indicator, the dealer, the scores
/// and every seat's starting hand; an error when no dora indicator is recorded.
pub open spec fn start_kyoku_event(k: KyokuV) -> Result<EventV, ConvertErrorV> {
    if k.dora_indicators.len() == 0 {
        Err(
            ConvertErrorV::InsufficientDoraIndicators {
                kyoku: k.meta.kyoku_num,
                honba: k.meta.honba,
            },
        )
    } else {
        Ok(
            EventV::StartKyoku {
                bakaze: bakaze_of(k.meta.kyoku_num),
                dora_marker: k.dora_indicators[0],
                kyoku: (k.meta.kyoku_num % 4 + 1) as u8,
                honba: k.meta.honba,
                kyotaku: k.meta.kyotaku,
                oya: k.meta.kyoku_num % 4,
                scores: k.scoreboard,
                tehais: k.action_tables.map_values(|t: ActionTableV| t.haipai),
            },
        )
    }
}

/// A kyoku's `start_kyoku` names the round wind by blocks of four kyoku numbers: east for
/// 0 to 3, south for 4 to 7, west for 8 to 11 and north for every later number; the
/// kyoku within the wind counts from 1 and its dealer is the seat of that count less one.
pub proof fn lemma_start_kyoku_wind(k: KyokuV)
    ensures
        start_kyoku_event(k) matches Ok(e) ==> {
            &&& e is StartKyoku
            &&& (k.meta.kyoku_num <= 3 ==> e->StartKyoku_bakaze@ == 27)
            &&& (4 <= k.meta.kyoku_num <= 7 ==> e->StartKyoku_bakaze@ == 28)
            &&& (8 <= k.meta.kyoku_num <= 11 ==> e->StartKyoku_bakaze@ == 29)
            &&& (12 <= k.meta.kyoku_num ==> e->StartKyoku_bakaze@ == 30)
            &&& 1 <= e->StartKyoku_kyoku <= 4
            &&& e->StartKyoku_oya + 1 == e->StartKyoku_kyoku
            &&& k.meta.kyoku_num == 4 * (k.meta.kyoku_num / 4) + e->StartKyoku_oya
        },
{
}

/// The events of one kyoku: three action tables make a three-player kyoku, any other
/// number a four-player one.
pub open spec fn kyoku_events(k: KyokuV) -> Result<Seq<EventV>, ConvertErrorV> {
    match start_kyoku_event(k) {
        Err(e) => Err(e),
        Ok(start) => if k.action_tables.len() == 3 {
            sanma_kyoku_events(k, start, (k.meta.kyoku_num % 4) as int)
        } else {
            yonma_kyoku_events(k, start, (k.meta.kyoku_num % 4) as usize)
        },
    }
}

/// The kyoku can be converted without reading past its tables: a three-player kyoku
/// has a dealer among the three seats, a four-player kyoku has at least four tables.
pub open spec fn kyoku_runs(k: KyokuV) -> bool {
    match start_kyoku_event(k) {
        Err(_) => true,
        Ok(_) => if k.action_tables.len() == 3 {
            k.meta.kyoku_num % 4 < 3
        } else {
            k.action_tables.len() >= 4
        },
    }
}

/// The events of the kyokus in order, or the error of the first kyoku that fails.
pub open spec fn kyokus_events(ks: Seq<KyokuV>) -> Result<Seq<EventV>, ConvertErrorV>
    decreases ks.len(),
{
    if ks.len() == 0 {
        Ok(seq![])
    } else {
        match kyokus_events(ks.drop_last()) {
            Err(e) => Err(e),
            Ok(evs) => match kyoku_events(ks.last()) {
                Err(e) => Err(e),
                Ok(k) => Ok(evs + k),
            },
        }
    }
}

/// Every kyoku that the conversion reaches, that is, every kyoku after which the
/// earlier ones converted, can be converted.
pub open spec fn kyokus_run(ks: Seq<KyokuV>) -> bool
    decreases ks.len(),
{
    ks.len() == 0 || (kyokus_run(ks.drop_last()) && (kyokus_events(ks.drop_last()) is Ok
        ==> kyoku_runs(ks.last())))
}

/// The whole game: `start_game` with the game length, the red-five flag and the names,
/// every kyoku, and `end_game`; a three-player game must then pass the three-player
/// check.
pub open spec fn log_events(
    kyoku_first: u8,
    aka_flag: bool,
    names: Seq<Seq<char>>,
    num_players: usize,
    ks: Seq<KyokuV>,
) -> Result<Seq<EventV>, ConvertErrorV> {
    match kyokus_events(ks) {
        Err(e) => Err(e),
        Ok(evs) => {
            let all = seq![EventV::StartGame { kyoku_first, aka_flag, names }] + evs + seq![
                EventV::EndGame,
            ];
            if num_players == 3 {
                match sanma_events_check(all) {
                    Err(e) => Err(e),
                    Ok(()) => Ok(all),
                }
            } else {
                Ok(all)
            }
        },
    }
}

/// The number of `start_kyoku` events.
pub open spec fn count_start_kyoku(evs: Seq<EventV>) -> nat
    decreases evs.len(),
{
    if evs.len() == 0 {
        0
    } else {
        count_start_kyoku(evs.drop_last()) + if evs.last() is StartKyoku {
            1nat
        } else {
            0nat
        }
    }
}

proof fn lemma_count_start_concat(a: Seq<EventV>, b: Seq<EventV>)
    ensures
        count_start_kyoku(a + b) == count_start_kyoku(a) + count_start_kyoku(b),
    decreases b.len(),
{
    if b.len() == 0 {
        assert(a + b =~= a);
    } else {
        lemma_count_start_concat(a, b.drop_last());
        assert((a + b).drop_last() =~= a + b.drop_last());
    }
}

proof fn lemma_count_start_framed(evs: Seq<EventV>)
    requires
        evs.len() >= 1,
        evs[0] is StartKyoku,
        forall|i: int| 1 <= i < evs.len() ==> !((#[trigger] evs[i]) is StartKyoku),
    ensures
        count_start_kyoku(evs) == 1,
    decreases evs.len(),
{
    if evs.len() == 1 {
        assert(evs.drop_last() =~= Seq::<EventV>::empty());
        assert(count_start_kyoku(Seq::<EventV>::empty()) == 0);
        assert(evs.last() == evs[0]);
    } else {
        let p = evs.drop_last();
        assert forall|i: int| 1 <= i < p.len() implies !((#[trigger] p[i]) is StartKyoku) by {
            assert(p[i] == evs[i]);
        }
        lemma_count_start_framed(p);
    }
}

/// The starting hands of every seat.
fn haipais(tables: &Vec<ActionTable>) -> (res: Vec<Vec<Tile>>)
    ensures
        crate::event::tile_rows_view(res@) == tables@.map_values(|t: ActionTable| t@.haipai),
{
    let mut res: Vec<Vec<Tile>> = Vec::new();
    let mut i: usize = 0;
    while i < tables.len()
        invariant
            i <= tables@.len(),
            res@.len() == i,
            forall|j: int| 0 <= j < i ==> #[trigger] res@[j]@ == tables@[j].haipai@,
        decreases tables.len() - i,
    {
        res.push(copy_vec(&tables[i].haipai));
        i += 1;
    }
    assert(crate::event::tile_rows_view(res@) =~= tables@.map_values(
        |t: ActionTable| t@.haipai,
    ));
    res
}

/// Builds the `start_kyoku` event of a kyoku.
fn start_kyoku(kyoku: &Kyoku) -> (res: Result<Event, ConvertError>)
    ensures
        match res {
            Ok(e) => start_kyoku_event(kyoku@) == Ok::<EventV, ConvertErrorV>(e@),
            Err(e) => start_kyoku_event(kyoku@) == Err::<EventV, ConvertErrorV>(e@),
        },
{
    let kyoku_num = kyoku.meta.kyoku_num;
    if kyoku.dora_indicators.len() == 0 {
        return Err(
            ConvertError::InsufficientDoraIndicators {
                kyoku: kyoku_num,
                honba: kyoku.meta.honba,
            },
        );
    }
    let tehais = haipais(&kyoku.action_tables);
    let ev = Event::StartKyoku {
        bakaze: Tile::wind(kyoku_num / 4),
        dora_marker: kyoku.dora_indicators[0],
        kyoku: kyoku_num % 4 + 1,
        honba: kyoku.meta.honba,
        kyotaku: kyoku.meta.kyotaku,
        oya: kyoku_num % 4,
        scores: copy_vec(&kyoku.scoreboard),
        tehais,
    };
    assert(crate::event::tile_rows_view(tehais@) =~= kyoku@.action_tables.map_values(
        |t: ActionTableV| t.haipai,
    ));
    Ok(ev)
}

/// Converts one kyoku.
fn tenhou_kyoku_to_mjai_events(kyoku: &Kyoku) -> (res: Result<Vec<Event>, ConvertError>)
    requires
        kyoku_runs(kyoku@),
    ensures
        match res {
            Ok(v) => kyoku_events(kyoku@) == Ok::<Seq<EventV>, ConvertErrorV>(events_view(v@)),
            Err(e) => kyoku_events(kyoku@) == Err::<Seq<EventV>, ConvertErrorV>(e@),
        },
        res matches Ok(v) ==> count_start_kyoku(events_view(v@)) == 1,
{
    let num_players = kyoku.action_tables.len();
    let oya = kyoku.meta.kyoku_num % 4;
    let start = match start_kyoku(kyoku) {
        Ok(e) => e,
        Err(e) => {
            return Err(e);
        },
    };
    assert(kyoku@.action_tables.len() == num_players);
    let res = if num_players == 3 {
        tenhou_sanma_kyoku_to_mjai_events(kyoku, start, oya)
    } else {
        tenhou_yonma_kyoku_to_mjai_events(kyoku, start, oya)
    };
    proof {
        if res is Ok {
            assert(framed_kyoku(events_view(res->Ok_0@), start@));
            lemma_count_start_framed(events_view(res->Ok_0@));
        }
    }
    res
}

proof fn lemma_kyokus_events_err(ks: Seq<KyokuV>, n: int)
    requires
        0 <= n <= ks.len(),
        kyokus_events(ks.take(n)) is Err,
    ensures
        kyokus_events(ks) == kyokus_events(ks.take(n)),
    decreases ks.len() - n,
{
    if n < ks.len() {
        assert(ks.take(n + 1).drop_last() =~= ks.take(n));
        lemma_kyokus_events_err(ks, n + 1);
    } else {
        assert(ks.take(n) =~= ks);
    }
}

proof fn lemma_kyokus_run_prefix(ks: Seq<KyokuV>, n: int)
    requires
        0 <= n <= ks.len(),
        kyokus_run(ks),
    ensures
        kyokus_run(ks.take(n)),
    decreases ks.len() - n,
{
    if n < ks.len() {
        lemma_kyokus_run_prefix(ks, n + 1);
        assert(ks.take(n + 1).drop_last() =~= ks.take(n));
    } else {
        assert(ks.take(n) =~= ks);
    }
}

/// Converts the kyokus in order and appends their events to `events`.
fn append_kyokus(events: &mut Vec<Event>, kyokus: &Vec<Kyoku>) -> (res: Result<(), ConvertError>)
    requires
        kyokus_run(kyokus_view(kyokus@)),
    ensures
        match res {
            Ok(()) => kyokus_events(kyokus_view(kyokus@)) matches Ok(evs) && events_view(
                final(events)@,
            ) == events_view(old(events)@) + evs && count_start_kyoku(evs) == kyokus@.len(),
            Err(e) => kyokus_events(kyokus_view(kyokus@)) == Err::<Seq<EventV>, ConvertErrorV>(
                e@,
            ),
        },
{
    let ghost ks = kyokus_view(kyokus@);
    let ghost head = events_view(events@);
    let mut i: usize = 0;
    assert(ks.take(0) =~= seq![]);
    assert(head + seq![] =~= head);
    while i < kyokus.len()
        invariant
            i <= kyokus@.len(),
            ks == kyokus_view(kyokus@),
            kyokus_run(ks),
            head == events_view(old(events)@),
            kyokus_events(ks.take(i as int)) matches Ok(evs) && events_view(events@) == head
                + evs && count_start_kyoku(evs) == i,
        decreases kyokus.len() - i,
    {
        let ghost before = events_view(events@);
        let ghost prev = kyokus_events(ks.take(i as int))->Ok_0;
        assert(ks.take(i + 1).drop_last() =~= ks.take(i as int));
        assert(ks.take(i + 1).last() == kyokus@[i as int]@);
        proof {
            lemma_kyokus_run_prefix(ks, i + 1);
        }
        let mut kevs = match tenhou_kyoku_to_mjai_events(&kyokus[i]) {
            Ok(v) => v,
            Err(e) => {
                proof {
                    lemma_kyokus_events_err(ks, i + 1);
                }
                return Err(e);
            },
        };
        let ghost kv = events_view(kevs@);
        events.append(&mut kevs);
        assert(events_view(events@) =~= before + kv);
        assert(head + (prev + kv) =~= before + kv);
        proof {
            lemma_count_start_concat(prev, kv);
        }
        i += 1;
    }
    assert(ks.take(i as int) =~= ks);
    assert(kyokus@.len() == ks.len());
    Ok(())
}

/// Transforms a tenhou.net/6 format log into mjai events: `start_game`, the events of
/// every kyoku in order, and `end_game`. A three-player game is then checked for chi,
/// a fourth seat and four-player-only tiles.
pub fn tenhou_to_mjai(log: &Log) -> (res: Result<Vec<Event>, ConvertError>)
    requires
        kyokus_run(kyokus_view(log.kyokus@)),
    ensures
        match res {
            Ok(v) => log_events(
                log.game_length.spec_as_u8(),
                log.has_aka,
                strings_view(log.names@),
                log.num_players,
                kyokus_view(log.kyokus@),
            ) == Ok::<Seq<EventV>, ConvertErrorV>(events_view(v@)),
            Err(e) => log_events(
                log.game_length.spec_as_u8(),
                log.has_aka,
                strings_view(log.names@),
                log.num_players,
                kyokus_view(log.kyokus@),
            ) == Err::<Seq<EventV>, ConvertErrorV>(e@),
        },
        res matches Ok(v) ==> count_start_kyoku(events_view(v@)) == log.kyokus@.len(),
{
    let mut events: Vec<Event> = vec![
        Event::StartGame {
            kyoku_first: log.game_length.as_u8(),
            aka_flag: log.has_aka,
            names: copy_strings(&log.names),
        },
    ];
    let ghost start = EventV::StartGame {
        kyoku_first: log.game_length.spec_as_u8(),
        aka_flag: log.has_aka,
        names: strings_view(log.names@),
    };
    assert(events_view(events@) =~= seq![start]);
    match append_kyokus(&mut events, &log.kyokus) {
        Ok(()) => {},
        Err(e) => {
            return Err(e);
        },
    }
    let ghost evs = kyokus_events(kyokus_view(log.kyokus@))->Ok_0;
    let ghost mid = events_view(events@);
    events.push(Event::EndGame);
    assert(events_view(events@) =~= seq![start] + evs + seq![EventV::EndGame]) by {
        assert(events_view(events@) =~= mid.push(EventV::EndGame));
    }
    proof {
        lemma_count_start_concat(seq![start], evs);
        lemma_count_start_concat(seq![start] + evs, seq![EventV::EndGame]);
        reveal_with_fuel(count_start_kyoku, 2);
        assert(seq![start].drop_last() =~= Seq::<EventV>::empty());
        assert(seq![EventV::EndGame].drop_last() =~= Seq::<EventV>::empty());
    }
    if log.num_players == 3 {
        match validate_sanma_mjai(events.as_slice()) {
            Ok(()) => {},
            Err(e) => {
                return Err(e);
            },
        }
    }
    Ok(events)
}

proof fn lemma_sanma_events_check_each(es: Seq<EventV>)
    requires
        sanma_events_check(es) is Ok,
    ensures
        forall|i: int| 0 <= i < es.len() ==> (#[trigger] sanma_event_check(es[i])) is Ok,
    decreases es.len(),
{
    if es.len() > 0 {
        lemma_sanma_events_check_each(es.drop_last());
        assert forall|i: int| 0 <= i < es.len() implies (#[trigger] sanma_event_check(es[i])) is Ok by {
            if i < es.len() - 1 {
                assert(es[i] == es.drop_last()[i]);
            }
        }
    }
}

/// A converted game starts with `start_game`, carrying the game length, the red-five
/// flag and the names, and ends with `end_game`.
pub proof fn lemma_game_frame(
    kyoku_first: u8,
    aka_flag: bool,
    names: Seq<Seq<char>>,
    num_players: usize,
    ks: Seq<KyokuV>,
    all: Seq<EventV>,
)
    requires
        log_events(kyoku_first, aka_flag, names, num_players, ks) == Ok::<
            Seq<EventV>,
            ConvertErrorV,
        >(all),
    ensures
        all.len() >= 2,
        all[0] == (EventV::StartGame { kyoku_first, aka_flag, names }),
        all.last() == EventV::EndGame,
{
}

/// The kyokus of a game convert when each of them converts; otherwise the conversion
/// fails with the error of the first kyoku that fails, every kyoku before it converting.
pub proof fn lemma_kyokus_first_error(ks: Seq<KyokuV>)
    ensures
        (forall|j: int| 0 <= j < ks.len() ==> (#[trigger] kyoku_events(ks[j])) is Ok)
            ==> kyokus_events(ks) is Ok,
        kyokus_events(ks) matches Err(e) ==> exists|i: int|
            0 <= i < ks.len() && (forall|j: int|
                0 <= j < i ==> (#[trigger] kyoku_events(ks[j])) is Ok) && kyoku_events(ks[i])
                == Err::<Seq<EventV>, ConvertErrorV>(e),
    decreases ks.len(),
{
    if ks.len() > 0 {
        let p = ks.drop_last();
        lemma_kyokus_first_error(p);
        assert forall|j: int| 0 <= j < p.len() implies p[j] == ks[j] by {}
        if forall|j: int| 0 <= j < ks.len() ==> (#[trigger] kyoku_events(ks[j])) is Ok {
            assert forall|j: int| 0 <= j < p.len() implies (#[trigger] kyoku_events(p[j])) is Ok by {
                assert(kyoku_events(ks[j]) is Ok);
            }
            assert(kyoku_events(ks[ks.len() - 1]) is Ok);
        }
        if let Err(e) = kyokus_events(ks) {
            match kyokus_events(p) {
                Err(e2) => {
                    let i = choose|i: int|
                        0 <= i < p.len() && (forall|j: int|
                            0 <= j < i ==> (#[trigger] kyoku_events(p[j])) is Ok) && kyoku_events(
                            p[i],
                        ) == Err::<Seq<EventV>, ConvertErrorV>(e2);
                    assert(e2 == e);
                    assert forall|j: int| 0 <= j < i implies (#[trigger] kyoku_events(ks[j])) is Ok by {
                        assert(p[j] == ks[j]);
                        assert(kyoku_events(p[j]) is Ok);
                    }
                    assert(p[i] == ks[i]);
                },
                Ok(_) => {
                    let i = ks.len() - 1;
                    assert(ks.last() == ks[i]);
                    assert(kyoku_events(ks[i]) == Err::<Seq<EventV>, ConvertErrorV>(e));
                    if !(forall|j: int| 0 <= j < p.len() ==> (#[trigger] kyoku_events(p[j])) is Ok) {
                        let j = choose|j: int| 0 <= j < p.len() && !((#[trigger] kyoku_events(p[j])) is Ok);
                        lemma_kyokus_err_at(p, j);
                    }
                    assert forall|j: int| 0 <= j < i implies (#[trigger] kyoku_events(ks[j])) is Ok by {
                        assert(p[j] == ks[j]);
                        assert(kyoku_events(p[j]) is Ok);
                    }
                },
            }
        }
    }
}

/// When a kyoku fails, the conversion of the kyokus fails.
proof fn lemma_kyokus_err_at(ks: Seq<KyokuV>, j: int)
    requires
        0 <= j < ks.len(),
        !(kyoku_events(ks[j]) is Ok),
    ensures
        kyokus_events(ks) is Err,
    decreases ks.len(),
{
    let p = ks.drop_last();
    if j < ks.len() - 1 {
        assert(p[j] == ks[j]);
        lemma_kyokus_err_at(p, j);
    } else {
        assert(ks.last() == ks[j]);
    }
}

/// A converted three-player game has no chi, no fourth seat and no tile that only a
/// four-player game uses.
pub proof fn lemma_sanma_game_checked(
    kyoku_first: u8,
    aka_flag: bool,
    names: Seq<Seq<char>>,
    ks: Seq<KyokuV>,
    all: Seq<EventV>,
)
    requires
        log_events(kyoku_first, aka_flag, names, 3, ks) == Ok::<Seq<EventV>, ConvertErrorV>(all),
    ensures
        forall|i: int|
            0 <= i < all.len() ==> !(all[i] is Chi) && !(all[i].actor() matches Some(a) && a >= 3)
                && (#[trigger] crate::validate::event_tiles_check(all[i])) is Ok,
{
    lemma_sanma_events_check_each(all);
    assert forall|i: int| 0 <= i < all.len() implies !(all[i] is Chi) && !(all[i].actor() matches Some(a) && a >= 3)
        && (#[trigger] crate::validate::event_tiles_check(all[i])) is Ok by {
        assert(sanma_event_check(all[i]) is Ok);
    }
}

} // verus!
