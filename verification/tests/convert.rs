use convlog::consts::{obs_shape, oracle_obs_shape, ACTION_SPACE, MAX_VERSION};
use convlog::error::ConvertError;
use convlog::tenhou::{
    ActionItem, DetailValue, KyokuFilter, KyokuMeta, Log, ParseError, RawKyoku, RawLog, RawRule,
    ResultItem,
};
use convlog::{tenhou_to_mjai, tiles_from_tenhou_bytes, Event, Tile};
use serde_json::Value;

fn log_json(disp: &str, kyokus: &[&str]) -> String {
    format!(
        r#"{{"name":["A","B","C","D"],"rule":{{"disp":"{}","aka":0,"aka51":0,"aka52":0,"aka53":0}},"log":[{}]}}"#,
        disp,
        kyokus.join(",")
    )
}

fn yonma(kyokus: &[&str]) -> String {
    log_json("四鳳南喰", kyokus)
}

fn sanma(kyokus: &[&str]) -> String {
    log_json("三鳳南喰赤", kyokus)
}

fn try_parse_log(text: &str) -> Result<Log, ParseError> {
    let value: Value = serde_json::from_str(text).expect("log json should parse");
    let names = value["name"].as_array().unwrap();
    let name = |i: usize| names.get(i).and_then(|n| n.as_str()).unwrap_or("").to_owned();
    let rule = &value["rule"];
    let aka = |key: &str| rule[key].as_u64().unwrap_or(0) as u8;
    let raw = RawLog {
        logs: value["log"].as_array().unwrap().iter().map(raw_kyoku).collect(),
        names: [name(0), name(1), name(2), name(3)],
        rule: RawRule {
            disp: rule["disp"].as_str().unwrap_or("").to_owned(),
            aka: aka("aka"),
            aka51: aka("aka51"),
            aka52: aka("aka52"),
            aka53: aka("aka53"),
        },
    };
    Log::try_from_raw(raw)
}

fn parse_log(text: &str) -> Log {
    try_parse_log(text).expect("log should be read")
}

fn convert(text: &str) -> Result<Vec<Event>, ConvertError> {
    tenhou_to_mjai(&parse_log(text))
}

fn t(name: &str) -> Tile {
    let id: u8 = match name {
        "E" => 27,
        "S" => 28,
        "W" => 29,
        "N" => 30,
        "P" => 31,
        "F" => 32,
        "C" => 33,
        "5mr" => 34,
        "5pr" => 35,
        "5sr" => 36,
        "?" => 37,
        _ => {
            let bytes = name.as_bytes();
            let num = bytes[0] - b'1';
            let suit = match bytes[1] {
                b'm' => 0,
                b'p' => 9,
                b's' => 18,
                _ => panic!("bad tile name {name}"),
            };
            suit + num
        }
    };
    Tile::try_from_u8(id).unwrap()
}

fn tenhou_tile(v: &Value) -> Tile {
    Tile::from_tenhou_id(v.as_u64().unwrap() as u8).unwrap()
}

fn tiles(v: &Value) -> Vec<Tile> {
    v.as_array().unwrap().iter().map(tenhou_tile).collect()
}

fn action_items(v: &Value) -> Vec<ActionItem> {
    v.as_array()
        .unwrap()
        .iter()
        .map(|item| match item {
            Value::String(s) => ActionItem::Naki(s.clone()),
            _ => ActionItem::from_number(item.as_u64().unwrap() as u8),
        })
        .collect()
}

fn result_items(v: &Value) -> Vec<ResultItem> {
    v.as_array()
        .unwrap()
        .iter()
        .map(|item| match item {
            Value::String(s) => ResultItem::Status(s.clone()),
            Value::Array(a) if a.len() == 4 && a.iter().all(|x| x.is_i64()) => {
                let mut sd = [0i32; 4];
                for (i, x) in a.iter().enumerate() {
                    sd[i] = x.as_i64().unwrap() as i32;
                }
                ResultItem::ScoreDeltas(sd)
            }
            Value::Array(a) => ResultItem::HoraDetail(
                a.iter()
                    .map(|x| match x {
                        Value::Number(n) => DetailValue::Number(n.as_u64()),
                        Value::String(s) => DetailValue::Text(s.clone()),
                        _ => DetailValue::Other,
                    })
                    .collect(),
            ),
            _ => panic!("unexpected result item {item}"),
        })
        .collect()
}

fn raw_kyoku(row: &Value) -> RawKyoku {
    let r = row.as_array().unwrap();
    let meta = r[0].as_array().unwrap();
    let mut scoreboard = [0i32; 4];
    for (i, x) in r[1].as_array().unwrap().iter().enumerate() {
        scoreboard[i] = x.as_i64().unwrap() as i32;
    }
    RawKyoku {
        meta: KyokuMeta {
            kyoku_num: meta[0].as_u64().unwrap() as u8,
            honba: meta[1].as_u64().unwrap() as u8,
            kyotaku: meta[2].as_u64().unwrap() as u8,
        },
        scoreboard,
        dora_indicators: tiles(&r[2]),
        ura_indicators: tiles(&r[3]),
        haipai_0: tiles(&r[4]),
        takes_0: action_items(&r[5]),
        discards_0: action_items(&r[6]),
        haipai_1: tiles(&r[7]),
        takes_1: action_items(&r[8]),
        discards_1: action_items(&r[9]),
        haipai_2: tiles(&r[10]),
        takes_2: action_items(&r[11]),
        discards_2: action_items(&r[12]),
        haipai_3: tiles(&r[13]),
        takes_3: action_items(&r[14]),
        discards_3: action_items(&r[15]),
        results: result_items(&r[16]),
    }
}


const H0: &str = "[11,19,21,22,23,25,26,27,31,32,33,35,36]";

fn kyoku(meta: &str, dora: &str, tables: [(&str, &str); 4], result: &str) -> String {
    let mut parts = vec![meta.to_owned(), "[25000,25000,25000,25000]".to_owned(), dora.to_owned(), "[]".to_owned()];
    for (takes, discards) in tables {
        parts.push(H0.to_owned());
        parts.push(takes.to_owned());
        parts.push(discards.to_owned());
    }
    parts.push(result.to_owned());
    format!("[{}]", parts.join(","))
}

fn sanma_kyoku(meta: &str, dora: &str, tables: [(&str, &str); 3], result: &str) -> String {
    let mut parts = vec![meta.to_owned(), "[35000,35000,35000,0]".to_owned(), dora.to_owned(), "[]".to_owned()];
    for (takes, discards) in tables {
        parts.push(H0.to_owned());
        parts.push(takes.to_owned());
        parts.push(discards.to_owned());
    }
    parts.push("[]".to_owned());
    parts.push("[]".to_owned());
    parts.push("[]".to_owned());
    parts.push(result.to_owned());
    format!("[{}]", parts.join(","))
}

const RYUKYOKU: &str = r#"["流局",[0,0,0,0]]"#;

#[test]
fn yonma_plain_turns_fill_tsumogiri_tiles() {
    let k = kyoku(
        "[0,0,0]",
        "[21]",
        [("[11]", "[60]"), ("[19]", "[60]"), ("[21]", "[60]"), ("[29]", "[60]")],
        RYUKYOKU,
    );
    let events = convert(&yonma(&[&k])).unwrap();
    let expected = vec![
        Event::Tsumo { actor: 0, pai: t("1m") },
        Event::Dahai { actor: 0, pai: t("1m"), tsumogiri: true },
        Event::Tsumo { actor: 1, pai: t("9m") },
        Event::Dahai { actor: 1, pai: t("9m"), tsumogiri: true },
        Event::Tsumo { actor: 2, pai: t("1p") },
        Event::Dahai { actor: 2, pai: t("1p"), tsumogiri: true },
        Event::Tsumo { actor: 3, pai: t("9p") },
        Event::Dahai { actor: 3, pai: t("9p"), tsumogiri: true },
        Event::Ryukyoku { deltas: Some(vec![0, 0, 0, 0]) },
        Event::EndKyoku,
    ];
    assert_eq!(events.len(), expected.len() + 3);
    assert!(matches!(&events[0], Event::StartGame { kyoku_first: 0, aka_flag: false, names } if names.len() == 4));
    assert!(matches!(
        &events[1],
        Event::StartKyoku { kyoku: 1, honba: 0, kyotaku: 0, oya: 0, bakaze, dora_marker, scores, tehais }
            if *bakaze == t("E") && *dora_marker == t("1p") && scores.len() == 4 && tehais.len() == 4
    ));
    assert_eq!(&events[2..events.len() - 1], expected.as_slice());
    assert_eq!(events.last(), Some(&Event::EndGame));
}

#[test]
fn yonma_chi_then_tsumo_win() {
    let k = kyoku(
        "[4,1,1]",
        "[21]",
        [("[11,47]", "[13]"), ("[\"c131214\"]", "[19]"), ("[21]", "[60]"), ("[29]", "[60]")],
        r#"["和了",[12000,-4000,-4000,-4000],[0,0,0,"30符4飜"]]"#,
    );
    let events = convert(&yonma(&[&k])).unwrap();
    assert!(matches!(
        &events[1],
        Event::StartKyoku { kyoku: 1, honba: 1, kyotaku: 1, oya: 0, bakaze, .. } if *bakaze == t("S")
    ));
    let expected = vec![
        Event::Tsumo { actor: 0, pai: t("1m") },
        Event::Dahai { actor: 0, pai: t("3m"), tsumogiri: false },
        Event::Chi { actor: 1, target: 0, pai: t("3m"), consumed: [t("2m"), t("4m")] },
        Event::Dahai { actor: 1, pai: t("9m"), tsumogiri: false },
        Event::Tsumo { actor: 2, pai: t("1p") },
        Event::Dahai { actor: 2, pai: t("1p"), tsumogiri: true },
        Event::Tsumo { actor: 3, pai: t("9p") },
        Event::Dahai { actor: 3, pai: t("9p"), tsumogiri: true },
        Event::Tsumo { actor: 0, pai: t("C") },
        Event::Hora {
            actor: 0,
            target: 0,
            deltas: Some(vec![12000, -4000, -4000, -4000]),
            ura_markers: Some(vec![]),
        },
        Event::EndKyoku,
    ];
    assert_eq!(&events[2..events.len() - 1], expected.as_slice());
}

#[test]
fn yonma_unexpected_naki_is_reported() {
    let k = kyoku(
        "[0,0,0]",
        "[21]",
        [("[11]", "[11]"), ("[\"p121212\"]", "[19]"), ("[21]", "[60]"), ("[29]", "[60]")],
        RYUKYOKU,
    );
    match convert(&yonma(&[&k])) {
        Err(ConvertError::UnexpectedNaki { last_discard, last_actor, kyoku, honba, actor, .. }) => {
            assert_eq!(last_discard, t("1m"));
            assert_eq!(last_actor, Some(0));
            assert_eq!((kyoku, honba, actor), (0, 0, 1));
        }
        other => panic!("unexpected result {other:?}"),
    }
}

#[test]
fn yonma_insufficient_takes_is_reported() {
    let k = kyoku(
        "[0,0,0]",
        "[21]",
        [("[11]", "[60]"), ("[]", "[]"), ("[21]", "[60]"), ("[29]", "[60]")],
        RYUKYOKU,
    );
    assert!(matches!(
        convert(&yonma(&[&k])),
        Err(ConvertError::InsufficientTakes { kyoku: 0, honba: 0, actor: 1 })
    ));
}

#[test]
fn missing_dora_indicator_is_reported() {
    let k = kyoku(
        "[3,2,0]",
        "[]",
        [("[11]", "[60]"), ("[19]", "[60]"), ("[21]", "[60]"), ("[29]", "[60]")],
        RYUKYOKU,
    );
    assert!(matches!(
        convert(&yonma(&[&k])),
        Err(ConvertError::InsufficientDoraIndicators { kyoku: 3, honba: 2 })
    ));
}

#[test]
fn tsumogiri_marker_in_takes_is_rejected() {
    let k = kyoku(
        "[0,0,0]",
        "[21]",
        [("[60]", "[60]"), ("[19]", "[60]"), ("[21]", "[60]"), ("[29]", "[60]")],
        RYUKYOKU,
    );
    assert!(matches!(convert(&yonma(&[&k])), Err(ConvertError::UnexpectedTsumogiri)));
}

#[test]
fn the_first_failing_kyoku_decides_the_error() {
    let ok = kyoku(
        "[0,0,0]",
        "[21]",
        [("[11]", "[60]"), ("[19]", "[60]"), ("[21]", "[60]"), ("[29]", "[60]")],
        RYUKYOKU,
    );
    let bad_naki = kyoku(
        "[1,0,0]",
        "[21]",
        [("[11]", "[60]"), ("[\"p1212\"]", "[60]"), ("[21]", "[60]"), ("[29]", "[60]")],
        RYUKYOKU,
    );
    let bad_take = kyoku(
        "[2,0,0]",
        "[21]",
        [("[60]", "[60]"), ("[19]", "[60]"), ("[21]", "[60]"), ("[29]", "[60]")],
        RYUKYOKU,
    );
    match convert(&yonma(&[&ok, &bad_naki, &bad_take])) {
        Err(ConvertError::InvalidNaki(s)) => assert_eq!(s, "p1212"),
        other => panic!("unexpected result {other:?}"),
    }
    assert!(matches!(
        convert(&yonma(&[&ok, &bad_take, &bad_naki])),
        Err(ConvertError::UnexpectedTsumogiri)
    ));
}

#[test]
fn invalid_naki_is_reported() {
    let k = kyoku(
        "[0,0,0]",
        "[21]",
        [("[11]", "[60]"), ("[\"p1212\"]", "[60]"), ("[21]", "[60]"), ("[29]", "[60]")],
        RYUKYOKU,
    );
    match convert(&yonma(&[&k])) {
        Err(ConvertError::InvalidNaki(s)) => assert_eq!(s, "p1212"),
        other => panic!("unexpected result {other:?}"),
    }
}

#[test]
fn sanma_chi_is_rejected() {
    let k = sanma_kyoku(
        "[0,0,0]",
        "[21]",
        [("[11]", "[13]"), ("[\"c131214\"]", "[19]"), ("[21]", "[60]")],
        RYUKYOKU,
    );
    assert!(matches!(convert(&sanma(&[&k])), Err(ConvertError::SanmaChi)));
}

#[test]
fn sanma_ron_may_leave_a_trailing_draw_unread() {
    // the third seat's only draw and its tsumogiri come after the ron
    let k = sanma_kyoku(
        "[0,0,0]",
        "[21]",
        [("[11]", "[60]"), ("[19]", "[60]"), ("[21]", "[60]")],
        r#"["和了",[3900,-3900,0,0],[0,1,0,"30符3飜"]]"#,
    );
    let events = convert(&sanma(&[&k])).unwrap();
    let hora = events
        .iter()
        .position(|e| matches!(e, Event::Hora { actor: 0, target: 1, .. }))
        .unwrap();
    assert!(!events.iter().any(|e| matches!(e, Event::Tsumo { actor: 2, .. })));
    assert!(matches!(events[hora - 1], Event::Dahai { actor: 1, tsumogiri: true, .. }));
    // the first two seats play their whole streams in order
    let seat = |a: u8| -> Vec<Event> {
        events
            .iter()
            .filter(|e| matches!(e, Event::Tsumo { actor, .. } | Event::Dahai { actor, .. } if *actor == a))
            .cloned()
            .collect()
    };
    assert_eq!(
        seat(0),
        vec![
            Event::Tsumo { actor: 0, pai: t("1m") },
            Event::Dahai { actor: 0, pai: t("1m"), tsumogiri: true },
        ]
    );
    assert_eq!(
        seat(1),
        vec![
            Event::Tsumo { actor: 1, pai: t("9m") },
            Event::Dahai { actor: 1, pai: t("9m"), tsumogiri: true },
        ]
    );
    assert!(seat(2).is_empty());
}

#[test]
fn sanma_tsumo_right_after_a_pon_is_not_a_replay() {
    // the second seat pons the first discard and has nothing left to discard; only a
    // draw by the winner may come before a tsumo win
    let k = sanma_kyoku(
        "[0,0,0]",
        "[21]",
        [("[21]", "[60]"), ("[\"p212121\"]", "[]"), ("[]", "[]")],
        r#"["和了",[-1000,2000,-1000,0],[1,1,1,"30符1飜"]]"#,
    );
    assert!(matches!(
        convert(&sanma(&[&k])),
        Err(ConvertError::NoValidSanmaOrder { kyoku: 0, honba: 0 })
    ));
}

#[test]
fn sanma_without_consistent_order_is_reported() {
    // the ron target's discard is followed by two more turns of the third seat, whose
    // second draw is never reached
    let k = sanma_kyoku(
        "[0,0,0]",
        "[21]",
        [("[11]", "[60]"), ("[19]", "[60]"), ("[21,22]", "[60,60]")],
        r#"["和了",[3900,-3900,0,0],[0,1,0,"30符3飜"]]"#,
    );
    assert!(matches!(
        convert(&sanma(&[&k])),
        Err(ConvertError::NoValidSanmaOrder { kyoku: 0, honba: 0 })
    ));
}

#[test]
fn sanma_unrevealed_dora_is_reported() {
    let k = sanma_kyoku(
        "[1,0,0]",
        "[21,22,23]",
        [("[11]", "[60]"), ("[19]", "[60]"), ("[21]", "[60]")],
        RYUKYOKU,
    );
    assert!(matches!(
        convert(&sanma(&[&k])),
        Err(ConvertError::UnconsumedDoraIndicators { kyoku: 1, honba: 0, unconsumed: 2 })
    ));
}

#[test]
fn sanma_four_player_only_tile_is_rejected() {
    let k = sanma_kyoku(
        "[0,0,0]",
        "[21]",
        [("[15]", "[60]"), ("[19]", "[60]"), ("[21]", "[60]")],
        RYUKYOKU,
    );
    match convert(&sanma(&[&k])) {
        Err(ConvertError::InvalidSanmaTile(tile)) => assert_eq!(tile, t("5m")),
        other => panic!("unexpected result {other:?}"),
    }
}

#[test]
fn sanma_plain_turns_convert() {
    let k = sanma_kyoku(
        "[1,0,0]",
        "[21]",
        [("[11]", "[60]"), ("[19]", "[60]"), ("[21]", "[60]")],
        RYUKYOKU,
    );
    let events = convert(&sanma(&[&k])).unwrap();
    assert!(matches!(&events[0], Event::StartGame { names, .. } if names.len() == 3));
    let expected = vec![
        Event::Tsumo { actor: 1, pai: t("9m") },
        Event::Dahai { actor: 1, pai: t("9m"), tsumogiri: true },
        Event::Tsumo { actor: 2, pai: t("1p") },
        Event::Dahai { actor: 2, pai: t("1p"), tsumogiri: true },
        Event::Tsumo { actor: 0, pai: t("1m") },
        Event::Dahai { actor: 0, pai: t("1m"), tsumogiri: true },
        Event::Ryukyoku { deltas: Some(vec![0, 0, 0]) },
        Event::EndKyoku,
    ];
    assert_eq!(&events[2..events.len() - 1], expected.as_slice());
}

#[test]
fn hora_detail_without_seats_is_a_parse_error() {
    let k = kyoku(
        "[0,0,0]",
        "[21]",
        [("[11]", "[60]"), ("[19]", "[60]"), ("[21]", "[60]"), ("[29]", "[60]")],
        r#"["和了",[0,0,0,0],["no seats"]]"#,
    );
    assert!(matches!(try_parse_log(&yonma(&[&k])), Err(ParseError::InvalidHoraDetail)));
}

#[test]
fn log_overview_follows_the_rule_display() {
    let k = kyoku(
        "[0,0,0]",
        "[21]",
        [("[11]", "[60]"), ("[19]", "[60]"), ("[21]", "[60]"), ("[29]", "[60]")],
        RYUKYOKU,
    );
    let log = parse_log(&log_json("四鳳東喰赤", &[&k]));
    assert_eq!(log.num_players, 4);
    assert_eq!(log.game_length.as_u8(), 4);
    assert!(!log.has_aka);
    assert_eq!(log.names.len(), 4);
    let log = parse_log(&log_json("3-Player South", &[]));
    assert_eq!(log.num_players, 3);
    assert_eq!(log.game_length.as_u8(), 0);
    assert_eq!(log.names, vec!["A", "B", "C"]);
}

#[test]
fn filter_kyokus_keeps_listed_kyokus_in_order() {
    let mk = |meta: &str| {
        kyoku(meta, "[21]", [("[11]", "[60]"), ("[19]", "[60]"), ("[21]", "[60]"), ("[29]", "[60]")], RYUKYOKU)
    };
    let (a, b, c) = (mk("[0,0,0]"), mk("[1,0,0]"), mk("[1,1,0]"));
    let mut log = parse_log(&yonma(&[&a, &b, &c]));
    let filter = KyokuFilter::new(vec![(1, 1), (0, 0)]);
    assert!(filter.test(1, 1));
    assert!(!filter.test(1, 0));
    log.filter_kyokus(&filter);
    let kept: Vec<(u8, u8)> = log.kyokus.iter().map(|k| (k.meta.kyoku_num, k.meta.honba)).collect();
    assert_eq!(kept, vec![(0, 0), (1, 1)]);
}

#[test]
fn tenhou_bytes_read_tiles() {
    assert_eq!(tiles_from_tenhou_bytes(b"15").unwrap(), t("5m"));
    assert_eq!(tiles_from_tenhou_bytes(b"52").unwrap(), t("5pr"));
    assert_eq!(tiles_from_tenhou_bytes(b"47").unwrap(), t("C"));
    match tiles_from_tenhou_bytes(b"5x") {
        Err(ConvertError::InvalidTile(s)) => assert_eq!(s, "5x"),
        other => panic!("unexpected result {other:?}"),
    }
    match tiles_from_tenhou_bytes(b"10") {
        Err(ConvertError::InvalidTile(s)) => assert_eq!(s, "10"),
        other => panic!("unexpected result {other:?}"),
    }
}

#[test]
fn action_item_numbers() {
    assert_eq!(ActionItem::from_number(0), ActionItem::Tile(t("?")));
    assert_eq!(ActionItem::from_number(11), ActionItem::Tile(t("1m")));
    assert_eq!(ActionItem::from_number(53), ActionItem::Tile(t("5sr")));
    assert_eq!(ActionItem::from_number(60), ActionItem::Tsumogiri(60));
}

#[test]
fn observation_shapes() {
    assert_eq!(MAX_VERSION, 5);
    assert_eq!(ACTION_SPACE, 44);
    assert_eq!(obs_shape(1), (936, 34));
    assert_eq!(obs_shape(4), (1010, 34));
    assert_eq!(obs_shape(5), (774, 34));
    assert_eq!(oracle_obs_shape(1), (211, 34));
    assert_eq!(oracle_obs_shape(3), (217, 34));
    assert_eq!(oracle_obs_shape(5), (170, 34));
}

#[test]
fn yonma_ambiguous_pon_retries_the_later_discard() {
    // actor 0 discards east twice in a row (a pon of actor 1's 1p in between), and
    // actor 2's pon of east belongs to the second one
    let k = kyoku(
        "[0,0,0]",
        "[21]",
        [
            ("[11,\"2121p21\"]", "[41,41]"),
            ("[21]", "[21]"),
            ("[\"41p4141\"]", "[19]"),
            ("[29]", "[60]"),
        ],
        RYUKYOKU,
    );
    let events = convert(&yonma(&[&k])).unwrap();
    let expected = vec![
        Event::Tsumo { actor: 0, pai: t("1m") },
        Event::Dahai { actor: 0, pai: t("E"), tsumogiri: false },
        Event::Tsumo { actor: 1, pai: t("1p") },
        Event::Dahai { actor: 1, pai: t("1p"), tsumogiri: false },
        Event::Pon { actor: 0, target: 1, pai: t("1p"), consumed: [t("1p"), t("1p")] },
        Event::Dahai { actor: 0, pai: t("E"), tsumogiri: false },
        Event::Pon { actor: 2, target: 0, pai: t("E"), consumed: [t("E"), t("E")] },
        Event::Dahai { actor: 2, pai: t("9m"), tsumogiri: false },
        Event::Tsumo { actor: 3, pai: t("9p") },
        Event::Dahai { actor: 3, pai: t("9p"), tsumogiri: true },
        Event::Ryukyoku { deltas: Some(vec![0, 0, 0, 0]) },
        Event::EndKyoku,
    ];
    assert_eq!(&events[2..events.len() - 1], expected.as_slice());
}

#[test]
fn yonma_calls_claim_the_latest_dahai_of_the_last_discarder() {
    let k = kyoku(
        "[0,0,0]",
        "[21]",
        [
            ("[11,\"2121p21\"]", "[41,41]"),
            ("[21]", "[21]"),
            ("[\"41p4141\"]", "[19]"),
            ("[29]", "[60]"),
        ],
        RYUKYOKU,
    );
    let events = convert(&yonma(&[&k])).unwrap();
    let mut calls = 0;
    for (i, event) in events.iter().enumerate() {
        let (actor, target, pai) = match event {
            Event::Chi { actor, target, pai, .. }
            | Event::Pon { actor, target, pai, .. }
            | Event::Daiminkan { actor, target, pai, .. } => (*actor, *target, *pai),
            _ => continue,
        };
        calls += 1;
        let latest = events[..i]
            .iter()
            .rev()
            .find_map(|e| match e {
                Event::Dahai { actor, pai, .. } => Some((*actor, *pai)),
                _ => None,
            })
            .unwrap();
        assert_eq!(latest, (target, pai));
        assert_ne!(actor, target);
    }
    assert_eq!(calls, 2);
}

#[test]
fn invalid_utf8_tile_bytes_are_reported_lossily() {
    match tiles_from_tenhou_bytes(&[0xff, b'1']) {
        Err(ConvertError::InvalidTile(s)) => assert_eq!(s, "\u{fffd}1"),
        other => panic!("unexpected result {other:?}"),
    }
}
