use vstd::prelude::*;

use crate::event::{copy_vec, strings_view};
use crate::text::{contains_seq, str_contains, str_equals};
use crate::tile::{group_tile_ids, tenhou_id_to_mjai_id, tile_from_id, Tile};

verus! {

broadcast use group_tile_ids;

// ---------------------------------------------------------------------------
// The tenhou.net/6 log as it is written in JSON, field for field.
// ---------------------------------------------------------------------------

/// Round number (E1 is 0, S1 is 4, ...), counter sticks and riichi sticks of a kyoku.
#[derive(Debug, Clone, Copy, PartialEq, Eq, Structural)]
pub struct KyokuMeta {
    pub kyoku_num: u8,
    pub honba: u8,
    pub kyotaku: u8,
}

/// One entry of a take or discard list: a tile, the tsumogiri marker, or a meld string.
#[derive(Debug, Clone, PartialEq, Eq)]
pub enum ActionItem {
    Tile(Tile),
    Tsumogiri(u8),
    Naki(String),
}

/// The entry that a number of a take or discard list stands for: 0 is the unknown tile
/// that marks the missing discard of a daiminkan, a Tenhou tile number is that tile,
/// and any other number (60 in practice) is the tsumogiri marker.
pub open spec fn action_item_of_number(v: u8) -> ActionItem {
    if v == 0 {
        ActionItem::Tile(tile_from_id(37))
    } else {
        match tenhou_id_to_mjai_id(v) {
            Some(id) => ActionItem::Tile(tile_from_id(id)),
            None => ActionItem::Tsumogiri(v),
        }
    }
}

impl ActionItem {
    /// Reads a number of a take or discard list.
    pub fn from_number(v: u8) -> (res: ActionItem)
        ensures
            res == action_item_of_number(v),
    {
        if v == 0 {
            ActionItem::Tile(Tile::unknown())
        } else {
            match Tile::from_tenhou_id(v) {
                Some(t) => ActionItem::Tile(t),
                None => ActionItem::Tsumogiri(v),
            }
        }
    }
}

/// One element of a hora detail list, as far as the conversion reads it: a JSON number
/// (with its value when it is a non-negative integer that fits in a `u64`), a string, or
/// anything else.
#[derive(Debug, Clone, PartialEq, Eq)]
pub enum DetailValue {
    Number(Option<u64>),
    Text(String),
    Other,
}

/// One entry of the result list of a kyoku.
#[derive(Debug, Clone, PartialEq, Eq)]
pub enum ResultItem {
    Status(String),
    ScoreDeltas([i32; 4]),
    HoraDetail(Vec<DetailValue>),
}

/// The rule object of a log.
#[derive(Debug, Clone, PartialEq, Eq)]
pub struct RawRule {
    pub disp: String,
    pub aka: u8,
    pub aka51: u8,
    pub aka52: u8,
    pub aka53: u8,
}

/// One kyoku row of a log.
#[derive(Debug, Clone, PartialEq, Eq)]
pub struct RawKyoku {
    pub meta: KyokuMeta,
    pub scoreboard: [i32; 4],
    pub dora_indicators: Vec<Tile>,
    pub ura_indicators: Vec<Tile>,
    pub haipai_0: Vec<Tile>,
    pub takes_0: Vec<ActionItem>,
    pub discards_0: Vec<ActionItem>,
    pub haipai_1: Vec<Tile>,
    pub takes_1: Vec<ActionItem>,
    pub discards_1: Vec<ActionItem>,
    pub haipai_2: Vec<Tile>,
    pub takes_2: Vec<ActionItem>,
    pub discards_2: Vec<ActionItem>,
    pub haipai_3: Vec<Tile>,
    pub takes_3: Vec<ActionItem>,
    pub discards_3: Vec<ActionItem>,
    pub results: Vec<ResultItem>,
}

/// A whole log as written by tenhou.net/6.
#[derive(Debug, Clone, PartialEq, Eq)]
pub struct RawLog {
    pub logs: Vec<RawKyoku>,
    pub names: [String; 4],
    pub rule: RawRule,
}

// ---------------------------------------------------------------------------
// The overview structure used by the conversion.
// ---------------------------------------------------------------------------

#[derive(Debug, Clone, Copy, PartialEq, Eq, Structural)]
pub enum ParseError {
    UnsupportedPlayerCount(usize),
    InvalidHoraDetail,
}

#[derive(Debug, Clone, Copy, PartialEq, Eq, Structural)]
pub enum GameLength {
    Hanchan,
    Tonpuu,
}

impl GameLength {
    /// The first kyoku number of the last wind that the game plays into:
    /// 0 for a hanchan, 4 for a tonpuu.
    pub open spec fn spec_as_u8(self) -> u8 {
        match self {
            GameLength::Hanchan => 0,
            GameLength::Tonpuu => 4,
        }
    }

    pub fn as_u8(self) -> (res: u8)
        ensures
            res == self.spec_as_u8(),
    {
        match self {
            GameLength::Hanchan => 0,
            GameLength::Tonpuu => 4,
        }
    }
}

/// The overview structure of log in tenhou.net/6 format.
#[derive(Debug, Clone)]
pub struct Log {
    pub names: Vec<String>,
    pub num_players: usize,
    pub game_length: GameLength,
    pub has_aka: bool,
    pub kyokus: Vec<Kyoku>,
}

/// Contains information about a kyoku.
#[derive(Debug, Clone)]
pub struct Kyoku {
    pub meta: KyokuMeta,
    pub scoreboard: Vec<i32>,
    pub dora_indicators: Vec<Tile>,
    pub ura_indicators: Vec<Tile>,
    pub action_tables: Vec<ActionTable>,
    pub end_status: EndStatus,
}

#[derive(Debug, Clone)]
pub enum EndStatus {
    Hora { details: Vec<HoraDetail> },
    Ryukyoku { score_deltas: Vec<i32> },
}

#[derive(Debug, Clone, Default)]
pub struct HoraDetail {
    pub who: u8,
    pub target: u8,
    pub score_deltas: Vec<i32>,
    pub yaku: Vec<String>,
}

/// A group of "配牌", "取" and "出", describing a player's
/// gaming status and actions throughout a kyoku.
#[derive(Debug, Clone)]
pub struct ActionTable {
    pub haipai: Vec<Tile>,
    pub takes: Vec<ActionItem>,
    pub discards: Vec<ActionItem>,
}

pub struct HoraDetailV {
    pub who: u8,
    pub target: u8,
    pub score_deltas: Seq<i32>,
    pub yaku: Seq<Seq<char>>,
}

pub enum EndStatusV {
    Hora { details: Seq<HoraDetailV> },
    Ryukyoku { score_deltas: Seq<i32> },
}

pub struct ActionTableV {
    pub haipai: Seq<Tile>,
    pub takes: Seq<ActionItem>,
    pub discards: Seq<ActionItem>,
}

pub struct KyokuV {
    pub meta: KyokuMeta,
    pub scoreboard: Seq<i32>,
    pub dora_indicators: Seq<Tile>,
    pub ura_indicators: Seq<Tile>,
    pub action_tables: Seq<ActionTableV>,
    pub end_status: EndStatusV,
}

impl View for HoraDetail {
    type V = HoraDetailV;

    open spec fn view(&self) -> HoraDetailV {
        HoraDetailV {
            who: self.who,
            target: self.target,
            score_deltas: self.score_deltas@,
            yaku: strings_view(self.yaku@),
        }
    }
}

pub open spec fn details_view(v: Seq<HoraDetail>) -> Seq<HoraDetailV> {
    v.map_values(|d: HoraDetail| d@)
}

pub open spec fn tables_view(v: Seq<ActionTable>) -> Seq<ActionTableV> {
    v.map_values(|t: ActionTable| t@)
}

impl View for EndStatus {
    type V = EndStatusV;

    open spec fn view(&self) -> EndStatusV {
        match self {
            EndStatus::Hora { details } => EndStatusV::Hora { details: details_view(details@) },
            EndStatus::Ryukyoku { score_deltas } => EndStatusV::Ryukyoku {
                score_deltas: score_deltas@,
            },
        }
    }
}

impl View for ActionTable {
    type V = ActionTableV;

    open spec fn view(&self) -> ActionTableV {
        ActionTableV { haipai: self.haipai@, takes: self.takes@, discards: self.discards@ }
    }
}

impl View for Kyoku {
    type V = KyokuV;

    open spec fn view(&self) -> KyokuV {
        KyokuV {
            meta: self.meta,
            scoreboard: self.scoreboard@,
            dora_indicators: self.dora_indicators@,
            ura_indicators: self.ura_indicators@,
            action_tables: tables_view(self.action_tables@),
            end_status: self.end_status@,
        }
    }
}

pub open spec fn kyokus_view(v: Seq<Kyoku>) -> Seq<KyokuV> {
    v.map_values(|k: Kyoku| k@)
}

// ---------------------------------------------------------------------------
// What the overview structure is, given the raw log.
// ---------------------------------------------------------------------------

/// Three players when the rule display names a three-player game, four otherwise.
pub open spec fn spec_num_players(rule: RawRule) -> usize {
    if contains_seq(rule.disp@, seq!['三']) || contains_seq(rule.disp@, "3-Player"@) {
        3
    } else {
        4
    }
}

/// An east-only game when the rule display names one.
pub open spec fn spec_game_length(rule: RawRule) -> GameLength {
    if contains_seq(rule.disp@, seq!['東']) || contains_seq(rule.disp@, "East"@) {
        GameLength::Tonpuu
    } else {
        GameLength::Hanchan
    }
}

pub open spec fn spec_has_aka(rule: RawRule) -> bool {
    rule.aka + rule.aka51 + rule.aka52 + rule.aka53 > 0
}

/// A game is played with red fives exactly when any of the red-five settings is set:
/// the plain one or any of the three per suit.
pub proof fn lemma_has_aka_any_setting(rule: RawRule)
    ensures
        spec_has_aka(rule) <==> (rule.aka != 0 || rule.aka51 != 0 || rule.aka52 != 0
            || rule.aka53 != 0),
        rule.aka51 != 0 ==> spec_has_aka(rule),
        rule.aka == 0 && rule.aka51 == 0 && rule.aka52 == 0 && rule.aka53 == 0 ==> !spec_has_aka(
            rule,
        ),
{
}

pub open spec fn zeros(n: nat) -> Seq<i32> {
    Seq::new(n, |i: int| 0i32)
}

/// The `u8` that a hora detail number stands for: the low byte of its integer value,
/// or 0 when it has none; `None` when the element is missing or not a number.
pub open spec fn detail_number(v: Seq<DetailValue>, i: int) -> Option<u8> {
    if 0 <= i < v.len() {
        match v[i] {
            DetailValue::Number(Some(x)) => Some((x % 256) as u8),
            DetailValue::Number(None) => Some(0u8),
            _ => None,
        }
    } else {
        None
    }
}

/// The strings among `v`, in order.
pub open spec fn text_values(v: Seq<DetailValue>) -> Seq<Seq<char>>
    decreases v.len(),
{
    if v.len() == 0 {
        seq![]
    } else {
        let r = text_values(v.drop_last());
        match v.last() {
            DetailValue::Text(s) => r.push(s@),
            _ => r,
        }
    }
}

/// The yaku names of a hora detail: the strings from its fifth element on.
pub open spec fn yaku_of(v: Seq<DetailValue>) -> Seq<Seq<char>> {
    if v.len() > 4 {
        text_values(v.subrange(4, v.len() as int))
    } else {
        seq![]
    }
}

/// The hora details of the (deltas, detail) pairs of a result list, read two by two;
/// a pair of any other shape is passed over, a detail without its two leading numbers
/// is an error.
pub open spec fn hora_details(pairs: Seq<ResultItem>, n: nat) -> Result<
    Seq<HoraDetailV>,
    ParseError,
>
    decreases pairs.len(),
{
    if pairs.len() < 2 {
        Ok(seq![])
    } else {
        let rest = hora_details(pairs.subrange(2, pairs.len() as int), n);
        match (pairs[0], pairs[1]) {
            (ResultItem::ScoreDeltas(sd), ResultItem::HoraDetail(wt)) => {
                match (detail_number(wt@, 0), detail_number(wt@, 1)) {
                    (Some(who), Some(target)) => match rest {
                        Ok(r) => Ok(
                            seq![
                                HoraDetailV {
                                    who,
                                    target,
                                    score_deltas: sd@.take(n as int),
                                    yaku: yaku_of(wt@),
                                },
                            ] + r,
                        ),
                        Err(e) => Err(e),
                    },
                    _ => Err(ParseError::InvalidHoraDetail),
                }
            },
            _ => rest,
        }
    }
}

/// How a kyoku ended, read from its result list.
pub open spec fn end_status_of(results: Seq<ResultItem>, n: nat) -> Result<EndStatusV, ParseError> {
    if results.len() > 0 && results[0] is Status {
        if results[0]->Status_0@ == "和了"@ {
            match hora_details(results.subrange(1, results.len() as int), n) {
                Ok(d) => Ok(EndStatusV::Hora { details: d }),
                Err(e) => Err(e),
            }
        } else {
            Ok(
                EndStatusV::Ryukyoku {
                    score_deltas: if results.len() > 1 && results[1] is ScoreDeltas {
                        results[1]->ScoreDeltas_0@.take(n as int)
                    } else {
                        zeros(n)
                    },
                },
            )
        }
    } else {
        Ok(EndStatusV::Ryukyoku { score_deltas: zeros(n) })
    }
}

pub open spec fn raw_tables(k: RawKyoku) -> Seq<ActionTableV> {
    seq![
        ActionTableV { haipai: k.haipai_0@, takes: k.takes_0@, discards: k.discards_0@ },
        ActionTableV { haipai: k.haipai_1@, takes: k.takes_1@, discards: k.discards_1@ },
        ActionTableV { haipai: k.haipai_2@, takes: k.takes_2@, discards: k.discards_2@ },
        ActionTableV { haipai: k.haipai_3@, takes: k.takes_3@, discards: k.discards_3@ },
    ]
}

/// The kyoku that a raw kyoku row describes, for `n` players.
pub open spec fn kyoku_of_raw(k: RawKyoku, n: nat) -> Result<KyokuV, ParseError> {
    match end_status_of(k.results@, n) {
        Ok(es) => Ok(
            KyokuV {
                meta: k.meta,
                scoreboard: k.scoreboard@.take(n as int),
                dora_indicators: k.dora_indicators@,
                ura_indicators: k.ura_indicators@,
                action_tables: raw_tables(k).take(n as int),
                end_status: es,
            },
        ),
        Err(e) => Err(e),
    }
}

/// The kyokus of a list of raw rows; the first row that fails decides the error.
pub open spec fn kyokus_of_raw(ks: Seq<RawKyoku>, n: nat) -> Result<Seq<KyokuV>, ParseError>
    decreases ks.len(),
{
    if ks.len() == 0 {
        Ok(seq![])
    } else {
        match kyokus_of_raw(ks.drop_last(), n) {
            Ok(r) => match kyoku_of_raw(ks.last(), n) {
                Ok(k) => Ok(r.push(k)),
                Err(e) => Err(e),
            },
            Err(e) => Err(e),
        }
    }
}

// ---------------------------------------------------------------------------
// Reading the raw log.
// ---------------------------------------------------------------------------

fn detail_number_at(v: &Vec<DetailValue>, i: usize) -> (res: Option<u8>)
    ensures
        res == detail_number(v@, i as int),
{
    if i < v.len() {
        match &v[i] {
            DetailValue::Number(Some(x)) => Some((*x % 256) as u8),
            DetailValue::Number(None) => Some(0),
            _ => None,
        }
    } else {
        None
    }
}

fn yaku_from(v: &Vec<DetailValue>) -> (res: Vec<String>)
    ensures
        strings_view(res@) == yaku_of(v@),
{
    let mut res: Vec<String> = Vec::new();
    if v.len() <= 4 {
        assert(strings_view(res@) =~= seq![]);
        return res;
    }
    let mut j: usize = 4;
    assert(v@.subrange(4, 4) =~= seq![]);
    while j < v.len()
        invariant
            4 <= j <= v.len(),
            strings_view(res@) == text_values(v@.subrange(4, j as int)),
        decreases v.len() - j,
    {
        assert(v@.subrange(4, j + 1).drop_last() =~= v@.subrange(4, j as int));
        match &v[j] {
            DetailValue::Text(s) => {
                let ghost old_res = res@;
                res.push(s.clone());
                assert(strings_view(res@) =~= strings_view(old_res).push(s@));
            },
            _ => {},
        }
        j += 1;
    }
    res
}

fn deltas_prefix(sd: &[i32; 4], n: usize) -> (res: Vec<i32>)
    requires
        n <= 4,
    ensures
        res@ == sd@.take(n as int),
{
    let mut res: Vec<i32> = Vec::new();
    let mut i: usize = 0;
    while i < n
        invariant
            i <= n <= 4,
            res@ == sd@.take(i as int),
        decreases n - i,
    {
        res.push(sd[i]);
        i += 1;
        assert(res@ =~= sd@.take(i as int));
    }
    res
}

fn zero_deltas(n: usize) -> (res: Vec<i32>)
    ensures
        res@ == zeros(n as nat),
{
    let mut res: Vec<i32> = Vec::new();
    let mut i: usize = 0;
    while i < n
        invariant
            i <= n,
            res@ == zeros(i as nat),
        decreases n - i,
    {
        res.push(0);
        i += 1;
        assert(res@ =~= zeros(i as nat));
    }
    res
}

fn read_end_status(results: &Vec<ResultItem>, n: usize) -> (res: Result<EndStatus, ParseError>)
    requires
        n <= 4,
    ensures
        match res {
            Ok(es) => end_status_of(results@, n as nat) == Ok::<EndStatusV, ParseError>(es@),
            Err(e) => end_status_of(results@, n as nat) == Err::<EndStatusV, ParseError>(e),
        },
{
    if results.len() == 0 {
        return Ok(EndStatus::Ryukyoku { score_deltas: zero_deltas(n) });
    }
    match &results[0] {
        ResultItem::Status(status_text) => {
            if str_equals(status_text.as_str(), "和了") {
                let mut details: Vec<HoraDetail> = Vec::new();
                let mut i: usize = 1;
                let ghost all = results@.subrange(1, results@.len() as int);
                assert(results@.subrange(1, results@.len() as int) =~= all);
                while i < results.len() - 1
                    invariant
                        1 <= i <= results.len(),
                        n <= 4,
                        results@[0] is Status,
                        results@[0]->Status_0@ == "和了"@,
                        all == results@.subrange(1, results@.len() as int),
                        match hora_details(results@.subrange(i as int, results@.len() as int), n as nat) {
                            Ok(r) => hora_details(all, n as nat) == Ok::<Seq<HoraDetailV>, ParseError>(
                                details_view(details@) + r,
                            ),
                            Err(e) => hora_details(all, n as nat) == Err::<Seq<HoraDetailV>, ParseError>(e),
                        },
                    decreases results.len() - i,
                {
                    let ghost pairs = results@.subrange(i as int, results@.len() as int);
                    assert(pairs.subrange(2, pairs.len() as int) =~= results@.subrange(
                        i + 2,
                        results@.len() as int,
                    ));
                    assert(pairs[0] == results@[i as int]);
                    assert(pairs[1] == results@[i + 1]);
                    match (&results[i], &results[i + 1]) {
                        (ResultItem::ScoreDeltas(sd), ResultItem::HoraDetail(wt)) => {
                            let who = match detail_number_at(wt, 0) {
                                Some(w) => w,
                                None => {
                                    assert(hora_details(pairs, n as nat) == Err::<
                                        Seq<HoraDetailV>,
                                        ParseError,
                                    >(ParseError::InvalidHoraDetail));
                                    assert(hora_details(all, n as nat) == Err::<
                                        Seq<HoraDetailV>,
                                        ParseError,
                                    >(ParseError::InvalidHoraDetail));
                                    assert(end_status_of(results@, n as nat) == Err::<
                                        EndStatusV,
                                        ParseError,
                                    >(ParseError::InvalidHoraDetail));
                                    return Err(ParseError::InvalidHoraDetail);
                                },
                            };
                            let target = match detail_number_at(wt, 1) {
                                Some(t) => t,
                                None => {
                                    assert(hora_details(pairs, n as nat) == Err::<
                                        Seq<HoraDetailV>,
                                        ParseError,
                                    >(ParseError::InvalidHoraDetail));
                                    assert(hora_details(all, n as nat) == Err::<
                                        Seq<HoraDetailV>,
                                        ParseError,
                                    >(ParseError::InvalidHoraDetail));
                                    assert(end_status_of(results@, n as nat) == Err::<
                                        EndStatusV,
                                        ParseError,
                                    >(ParseError::InvalidHoraDetail));
                                    return Err(ParseError::InvalidHoraDetail);
                                },
                            };
                            let hora_detail = HoraDetail {
                                score_deltas: deltas_prefix(sd, n),
                                who,
                                target,
                                yaku: yaku_from(wt),
                            };
                            let ghost old_details = details@;
                            details.push(hora_detail);
                            proof {
                                assert(details_view(details@) =~= details_view(old_details).push(hora_detail@));
                                if let Ok(r) = hora_details(
                                    results@.subrange(i + 2, results@.len() as int),
                                    n as nat,
                                ) {
                                    assert(details_view(old_details) + (seq![
                                        hora_detail@,
                                    ] + r) =~= details_view(details@) + r);
                                }
                            }
                        },
                        _ => {},
                    }
                    i += 2;
                }
                proof {
                    let rest = results@.subrange(i as int, results@.len() as int);
                    assert(rest.len() < 2);
                    assert(details_view(details@) + seq![] =~= details_view(details@));
                }
                Ok(EndStatus::Hora { details })
            } else {
                let score_deltas = if results.len() > 1 {
                    match &results[1] {
                        ResultItem::ScoreDeltas(dts) => deltas_prefix(dts, n),
                        _ => zero_deltas(n),
                    }
                } else {
                    zero_deltas(n)
                };
                Ok(EndStatus::Ryukyoku { score_deltas })
            }
        },
        _ => Ok(EndStatus::Ryukyoku { score_deltas: zero_deltas(n) }),
    }
}

fn read_kyoku(log: RawKyoku, num_players: usize) -> (res: Result<Kyoku, ParseError>)
    requires
        num_players == 3 || num_players == 4,
    ensures
        match res {
            Ok(k) => kyoku_of_raw(log, num_players as nat) == Ok::<KyokuV, ParseError>(k@),
            Err(e) => kyoku_of_raw(log, num_players as nat) == Err::<KyokuV, ParseError>(e),
        },
{
    let ghost raw = log;
    let end_status = match read_end_status(&log.results, num_players) {
        Ok(es) => es,
        Err(e) => {
            return Err(e);
        },
    };
    let RawKyoku {
        meta,
        scoreboard,
        dora_indicators,
        ura_indicators,
        haipai_0,
        takes_0,
        discards_0,
        haipai_1,
        takes_1,
        discards_1,
        haipai_2,
        takes_2,
        discards_2,
        haipai_3,
        takes_3,
        discards_3,
        results,
    } = log;
    let mut action_tables: Vec<ActionTable> = Vec::new();
    action_tables.push(
        ActionTable { haipai: copy_vec(&haipai_0), takes: takes_0, discards: discards_0 },
    );
    action_tables.push(
        ActionTable { haipai: copy_vec(&haipai_1), takes: takes_1, discards: discards_1 },
    );
    action_tables.push(
        ActionTable { haipai: copy_vec(&haipai_2), takes: takes_2, discards: discards_2 },
    );
    action_tables.push(ActionTable { haipai: haipai_3, takes: takes_3, discards: discards_3 });
    if action_tables.len() < num_players {
        return Err(ParseError::UnsupportedPlayerCount(num_players));
    }
    let ghost all_tables = action_tables@;
    action_tables.truncate(num_players);
    let kyoku = Kyoku {
        meta,
        scoreboard: deltas_prefix(&scoreboard, num_players),
        dora_indicators,
        ura_indicators,
        action_tables,
        end_status,
    };
    proof {
        assert(tables_view(all_tables) =~= raw_tables(raw));
        assert(tables_view(kyoku.action_tables@) =~= raw_tables(raw).take(
            num_players as int,
        ));
    }
    Ok(kyoku)
}

fn names_prefix(names: &[String; 4], n: usize) -> (res: Vec<String>)
    requires
        n <= 4,
    ensures
        strings_view(res@) == strings_view(names@.take(n as int)),
{
    let mut res: Vec<String> = Vec::new();
    let mut i: usize = 0;
    while i < n
        invariant
            i <= n <= 4,
            res@ == names@.take(i as int),
        decreases n - i,
    {
        res.push(names[i].clone());
        i += 1;
        assert(res@ =~= names@.take(i as int));
    }
    res
}

impl Log {
    /// Builds the overview structure of a log from the log as it is written.
    pub fn try_from_raw(raw_log: RawLog) -> (res: Result<Log, ParseError>)
        ensures
            match res {
                Ok(log) => {
                    &&& log.num_players == spec_num_players(raw_log.rule)
                    &&& log.game_length == spec_game_length(raw_log.rule)
                    &&& log.has_aka == spec_has_aka(raw_log.rule)
                    &&& log.has_aka == (raw_log.rule.aka != 0 || raw_log.rule.aka51 != 0
                        || raw_log.rule.aka52 != 0 || raw_log.rule.aka53 != 0)
                    &&& strings_view(log.names@) == strings_view(
                        raw_log.names@.take(log.num_players as int),
                    )
                    &&& kyokus_of_raw(raw_log.logs@, log.num_players as nat) == Ok::<
                        Seq<KyokuV>,
                        ParseError,
                    >(kyokus_view(log.kyokus@))
                },
                Err(e) => kyokus_of_raw(raw_log.logs@, spec_num_players(raw_log.rule) as nat)
                    == Err::<Seq<KyokuV>, ParseError>(e),
            },
    {
        let RawLog { logs, names, rule } = raw_log;
        let num_players: usize = if str_contains(rule.disp.as_str(), "三") || str_contains(
            rule.disp.as_str(),
            "3-Player",
        ) {
            3
        } else {
            4
        };
        let game_length = if str_contains(rule.disp.as_str(), "東") || str_contains(
            rule.disp.as_str(),
            "East",
        ) {
            GameLength::Tonpuu
        } else {
            GameLength::Hanchan
        };
        proof {
            reveal_strlit("三");
            reveal_strlit("東");
            assert("三"@ =~= seq!['三']);
            assert("東"@ =~= seq!['東']);
            assert(num_players == spec_num_players(raw_log.rule));
            assert(game_length == spec_game_length(raw_log.rule));
        }
        let has_aka = (rule.aka as u32) + (rule.aka51 as u32) + (rule.aka52 as u32) + (
        rule.aka53 as u32) > 0;

        let mut logs = logs;
        let ghost all_logs = logs@;
        let mut kyokus: Vec<Kyoku> = Vec::new();
        let mut k: usize = 0;
        let total = logs.len();
        assert(all_logs.take(0) =~= seq![]);
        assert(kyokus_view(kyokus@) =~= seq![]);
        assert(all_logs.subrange(0, total as int) =~= all_logs);
        while k < total
            invariant
                total == all_logs.len(),
                all_logs == raw_log.logs@,
                num_players == spec_num_players(raw_log.rule),
                k <= total,
                logs@ == all_logs.subrange(k as int, total as int),
                num_players == 3 || num_players == 4,
                kyokus_of_raw(all_logs.take(k as int), num_players as nat) == Ok::<
                    Seq<KyokuV>,
                    ParseError,
                >(kyokus_view(kyokus@)),
            decreases total - k,
        {
            let log = logs.remove(0);
            assert(log == all_logs[k as int]);
            assert(all_logs.take(k + 1).drop_last() =~= all_logs.take(k as int));
            assert(all_logs.take(k + 1).last() == log);
            let kyoku = match read_kyoku(log, num_players) {
                Ok(kyoku) => kyoku,
                Err(e) => {
                    proof {
                        assert(kyokus_of_raw(all_logs.take(k + 1), num_players as nat) == Err::<
                            Seq<KyokuV>,
                            ParseError,
                        >(e));
                        lemma_kyokus_of_raw_err_prefix(all_logs, k as int + 1, num_players as nat);
                        assert(kyokus_of_raw(raw_log.logs@, num_players as nat) == Err::<
                            Seq<KyokuV>,
                            ParseError,
                        >(e));
                    }
                    return Err(e);
                },
            };
            let ghost old_kyokus = kyokus@;
            kyokus.push(kyoku);
            assert(kyokus_view(kyokus@) =~= kyokus_view(old_kyokus).push(kyoku@));
            k += 1;
            assert(logs@ =~= all_logs.subrange(k as int, total as int));
        }
        assert(all_logs.take(total as int) =~= all_logs);
        Ok(Log {
            names: names_prefix(&names, num_players),
            num_players,
            game_length,
            has_aka,
            kyokus,
        })
    }

    /// Keeps the kyokus that the filter accepts, in their order.
    pub fn filter_kyokus(&mut self, kyoku_filter: &KyokuFilter)
        ensures
            final(self).kyokus@ == old(self).kyokus@.filter(
                |k: Kyoku| kyoku_filter.accepts(k.meta.kyoku_num, k.meta.honba),
            ),
            final(self).names == old(self).names,
            final(self).num_players == old(self).num_players,
            final(self).game_length == old(self).game_length,
            final(self).has_aka == old(self).has_aka,
    {
        let ghost pred = |k: Kyoku| kyoku_filter.accepts(k.meta.kyoku_num, k.meta.honba);
        let mut rest: Vec<Kyoku> = Vec::new();
        std::mem::swap(&mut rest, &mut self.kyokus);
        let ghost all = rest@;
        let total = rest.len();
        let mut kept: Vec<Kyoku> = Vec::new();
        let mut k: usize = 0;
        assert(all.subrange(0, total as int) =~= all);
        assert(all.take(0) =~= seq![]);
        reveal_with_fuel(Seq::filter, 1);
        while k < total
            invariant
                total == all.len(),
                k <= total,
                rest@ == all.subrange(k as int, total as int),
                pred == (|k: Kyoku| kyoku_filter.accepts(k.meta.kyoku_num, k.meta.honba)),
                kept@ == all.take(k as int).filter(pred),
            decreases total - k,
        {
            let kyoku = rest.remove(0);
            assert(kyoku == all[k as int]);
            assert(all.take(k + 1).drop_last() =~= all.take(k as int));
            assert(all.take(k + 1).last() == kyoku);
            reveal_with_fuel(Seq::filter, 1);
            let keep = kyoku_filter.test(kyoku.meta.kyoku_num, kyoku.meta.honba);
            assert(pred(kyoku) == keep);
            assert(all.take(k + 1).filter(pred) == if pred(all.take(k + 1).last()) {
                all.take(k + 1).drop_last().filter(pred).push(all.take(k + 1).last())
            } else {
                all.take(k + 1).drop_last().filter(pred)
            });
            if keep {
                kept.push(kyoku);
            }
            k += 1;
            assert(rest@ =~= all.subrange(k as int, total as int));
        }
        assert(all.take(total as int) =~= all);
        self.kyokus = kept;
    }
}

proof fn lemma_kyokus_of_raw_err_prefix(ks: Seq<RawKyoku>, k: int, n: nat)
    requires
        0 <= k <= ks.len(),
        kyokus_of_raw(ks.take(k), n) is Err,
    ensures
        kyokus_of_raw(ks, n) == kyokus_of_raw(ks.take(k), n),
    decreases ks.len() - k,
{
    if k < ks.len() {
        assert(ks.take(k + 1).drop_last() =~= ks.take(k));
        lemma_kyokus_of_raw_err_prefix(ks, k + 1, n);
    } else {
        assert(ks.take(k) =~= ks);
    }
}

/// Selects kyokus by round number and counter sticks.
#[derive(Debug, Clone)]
pub struct KyokuFilter {
    pub whitelist: Vec<(u8, u8)>,
}

impl KyokuFilter {
    /// Whether the kyoku with this round number and counter sticks is selected.
    pub open spec fn accepts(&self, kyoku_num: u8, honba: u8) -> bool {
        exists|i: int| 0 <= i < self.whitelist@.len() && #[trigger] self.whitelist@[i] == (kyoku_num, honba)
    }

    pub fn new(whitelist: Vec<(u8, u8)>) -> (res: KyokuFilter)
        ensures
            res.whitelist == whitelist,
    {
        KyokuFilter { whitelist }
    }

    /// Whether the kyoku with this round number and counter sticks is selected.
    pub fn test(&self, kyoku_num: u8, honba: u8) -> (res: bool)
        ensures
            res == self.accepts(kyoku_num, honba),
    {
        let mut i: usize = 0;
        while i < self.whitelist.len()
            invariant
                i <= self.whitelist@.len(),
                forall|j: int| 0 <= j < i ==> self.whitelist@[j] != (kyoku_num, honba),
            decreases self.whitelist.len() - i,
        {
            let (k, h) = self.whitelist[i];
            if k == kyoku_num && h == honba {
                assert(self.whitelist@[i as int] == (kyoku_num, honba));
                return true;
            }
            i += 1;
        }
        false
    }
}

} // verus!
