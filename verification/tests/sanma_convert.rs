use convlog::tenhou::{
    ActionItem, DetailValue, KyokuMeta, Log, RawKyoku, RawLog, RawRule, ResultItem,
};
use convlog::{tenhou_to_mjai, Event, Tile};
use serde_json::Value;

// Single kyoku rows of real three-player games.
const SANMA_CFB86147_KYOKU_JSON: &str = r#"[[2,0,0],[29700,30400,44900,0],[26],[],[24,25,28,28,32,34,36,37,39,42,45,47,47],[41,34,45,22,53,35,19,47,37,"37p3737",24,"45p4545"],[39,41,42,60,28,28,32,19,25,24,60,36],[11,21,22,22,23,23,52,27,28,38,39,42,46],[27,36,38,25,26,43,43,11,19,23,19],[11,39,42,46,36,60,60,60,60,60,60],[11,19,22,26,29,34,35,36,39,42,42,43,44],[43,46,29,37,"p424242",35,31,"p434343",31,28,37,45,44,45],["f44",19,11,46,22,26,29,29,39,60,60,60,"f44",60],[],[],[],["和了",[-11600,0,11600,0],[2,0,2,"30符4飜11600点","混一色(2飜)","ドラ(2飜)"]]]"#;
const SANMA_097ACC2B_KYOKU_JSON: &str = r#"[[2,0,0],[25500,33000,46500,0],[35],[39],[21,22,22,23,23,26,28,29,32,34,42,45,45],[25,37,34,32,"45p4545",27],[34,32,60,60,42,37],[23,24,24,25,26,29,34,36,38,42,43,47,47],[53,31,39,25,32],[42,60,43,"r29",60],[22,27,29,32,33,35,36,37,38,39,42,43,45],[28,31,43,46,45,36],[43,42,60,45,60,46],[],[],[],["和了",[-5200,6200,0,0],[1,0,1,"40符3飜5200点","立直(1飜)","ドラ(1飜)","赤ドラ(1飜)"]]]"#;
const SANMA_25E9BC69_KYOKU_JSON: &str = r#"[[1,1,0],[51700,25900,27400,0],[42],[28],[11,11,21,26,29,29,37,41,42,42,43,45,45],["2929p29","11p1111",44,32,"4545p45",27,19,47,34],[26,37,"f44",60,21,60,60,60,42],[19,19,22,22,23,24,29,53,36,36,45,46,46],[25,39,28,35,33,34,37,29,21],[29,60,60,45,60,22,"r22",60,60],[11,22,23,23,25,26,26,33,38,38,41,47,47],[28,52,31,36,26,32,19],[11,28,33,60,22,60,60],[],[],[],["和了",[0,5100,-4100,0],[1,2,1,"40符2飜3900点","立直(1飜)","赤ドラ(1飜)"]]]"#;
const SANMA_6C887319_KYOKU_JSON: &str = r#"[[0,2,0],[47200,35000,22800,0],[23],[44],[21,21,22,26,32,33,33,34,35,38,43,43,46],[22,42,46,29,38,35,28,32],[46,60,60,60,26,34,"r32",60],[11,19,19,22,23,26,26,31,33,34,36,37,43],[39,27,35,25,19,28],[43,31,39,26,60,60],[22,24,24,28,29,29,53,36,36,41,46,46,47],["46p4646",24,45,"29p2929",39,41,26],[41,47,60,28,60,60,60],[],[],[],["和了",[6200,-5200,0,0],[0,1,0,"25符3飜4800点","立直(1飜)","七対子(2飜)"]]]"#;
const SANMA_525BE759_KAKAN_BRANCH_KYOKU_JSON: &str = r#"[[1,2,0],[34000,42900,28100,0],[29,22],[],[21,26,27,29,29,31,32,33,33,35,37,39,43],[53,33,32,25,24,19,38,45],[43,29,29,21,27,60,33,60],[19,26,29,31,32,32,34,37,41,41,42,42,45],[34,21,28,"3434p34",27,"4141p41",36,37,34,46,39,42],[26,29,60,21,60,19,45,60,"3434k3434",60,60,31],[11,11,21,21,22,23,28,33,43,45,46,47,47],[22,28,34,36,41,35,52,41,28,36],[43,33,60,60,60,60,45,60,46,60],[],[],[],["和了",[4300,-4300,0,0],[0,1,0,"30符3飜3900点","平和(1飜)","一盃口(1飜)","赤ドラ(1飜)"]]]"#;
// Actor 0 (dealer) waits on 1s; actors 1 and 2 each draw and discard a 1s.
const SANMA_525BE759_BYSTANDER_PHANTOM_KYOKU_JSON: &str = r#"[[1,0,0],[35000,35000,35000,0],[47],[],[25,26,27,32,33,34,36,36,36,47,47,47,31],[38],[60],[11,19,29,41,41,42,42,43,43,45,45,46,46],[31],[60],[21,22,23,24,28,29,35,37,38,39,44,45,46],[31],[60],[],[],[],["和了",[5200,-5200,0,0],[0,1,0,"30符3飜5200点","中(1飜)","ドラ(2飜)"]]]"#;

// Short three-player kyoku rows, each written for one situation.
// E1: actor 2 declares kita on its last turn and actor 0 rons the kita.
const KITA_RON_KYOKU_JSON: &str = r#"[[0,0,0],[35000,35000,35000,0],[21],[],[11,11,11,19,19,21,22,23,25,26,27,44,44],[29],[60],[19,19,21,21,23,23,25,25,27,27,29,31,31],[31],[60],[31,31,32,32,33,33,35,35,36,36,37,37,44],[32],["f44"],[],[],[],["和了",[8000,0,-8000,0],[0,2,0,"30符4飜7700点","ドラ(2飜)"]]]"#;
// E2: actor 1 declares riichi, actor 2 makes an ankan and draws its replacement, and
// actor 1 wins by tsumo on its next draw.
const RIICHI_ANKAN_TSUMO_KYOKU_JSON: &str = r#"[[1,0,0],[35000,35000,35000,0],[23,45],[],[19,19,21,22,23,24,25,26,27,28,29,31,32],[22],[60],[11,11,11,19,19,19,21,21,21,23,24,25,47],[11,47],["r11"],[41,41,41,29,29,29,31,32,33,35,36,37,38],[41,25],["414141a41",60],[],[],[],["和了",[-2000,4000,-2000,0],[1,1,1,"40符2飜","立直(1飜)","門前清自摸和(1飜)"]]]"#;
// E3: actor 0 pons actor 2's haku; nobody wins.
const PON_RYUKYOKU_KYOKU_JSON: &str = r#"[[2,0,0],[35000,35000,35000,0],[26],[],[11,19,21,22,23,25,26,27,45,45,46,46,47],["p454545"],[11],[21,21,22,22,23,23,25,25,26,26,27,27,28],[31],[60],[31,32,33,35,36,37,38,39,41,41,42,42,45],[45,32],[45,60],[],[],[],["流局",[0,0,0,0]]]"#;
// E1: actor 0 calls daiminkan on actor 2's 9s, draws the replacement east and
// discards it by tsumogiri.
const DAIMINKAN_KYOKU_JSON: &str = r#"[[0,0,0],[35000,35000,35000,0],[21,22],[],[11,19,21,22,23,25,26,27,39,39,39,46,46],[29,"m39393939",41],[60,0,60],[21,21,22,22,23,23,25,25,26,26,27,27,28],[31],[60],[31,32,33,35,36,37,38,39,41,41,42,42,45],[32],[39],[],[],[],["流局",[0,0,0,0]]]"#;
// E1: actor 2 draws 8s and discards it, and actor 1 rons it.
const FINAL_DISCARD_RON_KYOKU_JSON: &str = r#"[[0,0,0],[35000,35000,35000,0],[21],[],[11,19,21,22,23,25,26,27,41,41,46,46,47],[29],[60],[31,32,33,34,35,36,37,37,37,21,22,23,39],[32],[60],[21,21,22,22,23,23,25,25,26,26,27,27,28],[38],[60],[],[],[],["和了",[0,3900,-3900,0],[1,2,1,"30符3飜3900点","ドラ(1飜)"]]]"#;
// S2: actor 1 discards 9m; actor 2 draws chun, declares kita, draws 6p, declares kita
// again, draws 2p and discards east; actor 0 then draws 9s.
const KITA_REPLACEMENT_KYOKU_JSON: &str = r#"[[5,0,0],[35000,35000,35000,0],[21],[],[11,19,21,22,23,25,26,27,41,41,46,46,47],[39],[60],[19,21,22,23,25,26,27,28,29,31,32,33,35],[38],[19],[41,44,44,31,32,33,35,36,37,21,21,29,29],[47,26,22],["f44","f44",41],[],[],[],["流局",[0,0,0,0]]]"#;

// S2 honba 1: actors 2 and 0 declare kita before actor 1 pons actor 0's later 6s;
// actor 2 rons actor 1's final tsumogiri 9s.
const NUKIDORA_THEN_PON_KYOKU_JSON: &str = r#"[[5,1,0],[35000,35000,35000,0],[21],[],[44,36,36,11,19,21,22,23,25,26,27,41,42],[31,32,33],["f44",36,60],[36,36,11,19,21,22,23,25,26,27,41,42,45],[45,"p363636",39],[60,11,60],[44,29,29,29,28,28,28,27,27,27,26,26,25],[41,42,43],["f44",60,60],[],[],[],["和了",[0,-3900,3900,0],[2,1,2,"30符3飜3900点","ドラ(1飜)"]]]"#;
// E3 honba 1: actor 0's only take is a pon of actor 2's tsumogiri hatsu; actor 1 then
// draws west and discards hatsu, and nobody wins.
const LATE_PON_KYOKU_JSON: &str = r#"[[2,1,0],[35000,35000,35000,0],[21],[],[46,46,19,11,21,22,23,25,26,27,41,42,45],["p464646"],[19],[46,11,19,21,22,23,25,26,27,31,32,33,35],[43],[46],[11,19,21,22,23,25,26,27,31,32,33,35,36],[46],[60],[],[],[],["流局",[0,0,0,0]]]"#;
// S3 honba 1: actor 1 draws 9m and discards 7p, actor 2 draws 7s and discards 9p,
// actor 0 draws 4s and discards it, and actor 2 rons it.
const RON_AFTER_TURNS_KYOKU_JSON: &str = r#"[[6,1,0],[35000,35000,35000,0],[21],[],[11,19,21,22,23,25,26,27,31,32,33,35,36],[42,34],[60,60],[11,19,21,22,23,25,26,27,31,32,33,35,36],[19],[27],[29,34,35,33,33,21,22,23,25,26,27,41,41],[41,37],[60,29],[],[],[],["和了",[-3900,0,3900,0],[2,0,2,"30符3飜3900点","ドラ(1飜)"]]]"#;

// E2: actor 0 draws 4s, actor 1 draws 6s and discards hatsu, actor 2 draws 9m, actor 0
// draws 8s, and actor 1 draws 3p and declares riichi; nobody wins.
const REAL_TURN_BEFORE_RIICHI_KYOKU_JSON: &str = r#"[[1,0,0],[35000,35000,35000,0],[21],[],[11,19,21,22,23,25,26,27,31,32,33,35,36],[34,38],[60,60],[11,19,21,22,23,25,26,27,31,32,33,41,46],[11,36,23],[60,46,"r41"],[11,19,21,22,23,25,26,27,31,32,33,35,37],[29,19],[60,60],[],[],[],["流局",[0,0,0,0]]]"#;
// E1 honba 2: actor 0 draws and discards haku, then 1p; on the last turn actor 2 draws
// 6p and discards 4s, and actor 1 rons it.
const HOUTEI_RON_KYOKU_JSON: &str = r#"[[0,2,0],[35000,35000,35000,0],[21],[],[11,19,21,22,23,25,26,27,31,32,33,35,36],[45,21],[60,60],[11,19,21,22,23,25,26,27,31,32,33,35,36],[11,29],[60,60],[11,19,21,22,23,25,26,27,31,32,34,35,36],[19,26],[60,34],[],[],[],["和了",[0,4500,-4500,0],[1,2,1,"30符3飜3900点","ドラ(1飜)"]]]"#;
// E1: actor 2 draws 4s and discards 1s, actor 0 draws and discards, actor 1 draws 2s
// and discards it, and actor 2 rons it.
const TERMINAL_CLEANUP_RON_KYOKU_JSON: &str = r#"[[0,0,0],[35000,35000,35000,0],[21],[],[11,19,21,22,23,25,26,27,31,32,33,35,36],[11,29],[60,60],[11,19,21,22,23,25,26,27,31,33,35,36,37],[19,32],[60,60],[22,23,24,25,26,27,31,33,34,35,36,37,38],[34],[31],[],[],[],["和了",[0,-3900,3900,0],[2,1,2,"30符3飜3900点","断幺九(1飜)"]]]"#;

fn sanma_log_json(kyokus: &[&str]) -> String {
    format!(
        r#"{{"name":["A","B","C",""],"rule":{{"disp":"三鳳南喰赤","aka":1,"aka51":1,"aka52":1,"aka53":1}},"log":[{}]}}"#,
        kyokus.join(",")
    )
}

/// Seven kyokus of a three-player game: the situations above and two real kyokus.
fn sanma_game_json() -> String {
    sanma_log_json(&[
        KITA_RON_KYOKU_JSON,
        RIICHI_ANKAN_TSUMO_KYOKU_JSON,
        PON_RYUKYOKU_KYOKU_JSON,
        SANMA_CFB86147_KYOKU_JSON,
        SANMA_097ACC2B_KYOKU_JSON,
        DAIMINKAN_KYOKU_JSON,
        KITA_REPLACEMENT_KYOKU_JSON,
    ])
}

fn t(name: &str) -> Tile {
    let id: u8 = match name {
        "E" => 27,
        "S" => 28,
        "W" => 29,
        "N" => 30,
        "P" => 31,
        "F" => 32,
        "C" => 33,
        "5mr" => 34,
        "5pr" => 35,
        "5sr" => 36,
        "?" => 37,
        _ => {
            let bytes = name.as_bytes();
            let num = bytes[0] - b'1';
            let suit = match bytes[1] {
                b'm' => 0,
                b'p' => 9,
                b's' => 18,
                _ => panic!("bad tile name {name}"),
            };
            suit + num
        }
    };
    Tile::try_from_u8(id).unwrap()
}

fn tenhou_tile(v: &Value) -> Tile {
    Tile::from_tenhou_id(v.as_u64().unwrap() as u8).unwrap()
}

fn tiles(v: &Value) -> Vec<Tile> {
    v.as_array().unwrap().iter().map(tenhou_tile).collect()
}

fn action_items(v: &Value) -> Vec<ActionItem> {
    v.as_array()
        .unwrap()
        .iter()
        .map(|item| match item {
            Value::String(s) => ActionItem::Naki(s.clone()),
            _ => ActionItem::from_number(item.as_u64().unwrap() as u8),
        })
        .collect()
}

fn result_items(v: &Value) -> Vec<ResultItem> {
    v.as_array()
        .unwrap()
        .iter()
        .map(|item| match item {
            Value::String(s) => ResultItem::Status(s.clone()),
            Value::Array(a) if a.len() == 4 && a.iter().all(|x| x.is_i64()) => {
                let mut sd = [0i32; 4];
                for (i, x) in a.iter().enumerate() {
                    sd[i] = x.as_i64().unwrap() as i32;
                }
                ResultItem::ScoreDeltas(sd)
            }
            Value::Array(a) => ResultItem::HoraDetail(
                a.iter()
                    .map(|x| match x {
                        Value::Number(n) => DetailValue::Number(n.as_u64()),
                        Value::String(s) => DetailValue::Text(s.clone()),
                        _ => DetailValue::Other,
                    })
                    .collect(),
            ),
            _ => panic!("unexpected result item {item}"),
        })
        .collect()
}

fn raw_kyoku(row: &Value) -> RawKyoku {
    let r = row.as_array().unwrap();
    let meta = r[0].as_array().unwrap();
    let mut scoreboard = [0i32; 4];
    for (i, x) in r[1].as_array().unwrap().iter().enumerate() {
        scoreboard[i] = x.as_i64().unwrap() as i32;
    }
    RawKyoku {
        meta: KyokuMeta {
            kyoku_num: meta[0].as_u64().unwrap() as u8,
            honba: meta[1].as_u64().unwrap() as u8,
            kyotaku: meta[2].as_u64().unwrap() as u8,
        },
        scoreboard,
        dora_indicators: tiles(&r[2]),
        ura_indicators: tiles(&r[3]),
        haipai_0: tiles(&r[4]),
        takes_0: action_items(&r[5]),
        discards_0: action_items(&r[6]),
        haipai_1: tiles(&r[7]),
        takes_1: action_items(&r[8]),
        discards_1: action_items(&r[9]),
        haipai_2: tiles(&r[10]),
        takes_2: action_items(&r[11]),
        discards_2: action_items(&r[12]),
        haipai_3: tiles(&r[13]),
        takes_3: action_items(&r[14]),
        discards_3: action_items(&r[15]),
        results: result_items(&r[16]),
    }
}

fn parse_log(text: &str) -> Log {
    let value: Value = serde_json::from_str(text).expect("log json should parse");
    let names = value["name"].as_array().unwrap();
    let name = |i: usize| names.get(i).and_then(|n| n.as_str()).unwrap_or("").to_owned();
    let rule = &value["rule"];
    let aka = |key: &str| rule[key].as_u64().unwrap_or(0) as u8;
    let raw = RawLog {
        logs: value["log"].as_array().unwrap().iter().map(raw_kyoku).collect(),
        names: [name(0), name(1), name(2), name(3)],
        rule: RawRule {
            disp: rule["disp"].as_str().unwrap_or("").to_owned(),
            aka: aka("aka"),
            aka51: aka("aka51"),
            aka52: aka("aka52"),
            aka53: aka("aka53"),
        },
    };
    Log::try_from_raw(raw).expect("log should be read")
}

fn convert_raw_log(raw: &str, description: &str) -> Vec<Event> {
    let tenhou_log = parse_log(raw);
    assert_eq!(tenhou_log.num_players, 3);
    tenhou_to_mjai(&tenhou_log)
        .unwrap_or_else(|err| panic!("{description} should convert: {err:?}"))
}

fn convert_game() -> Vec<Event> {
    convert_raw_log(&sanma_game_json(), "sanma game")
}

fn convert_single_kyoku_json(kyoku_json: &str, description: &str) -> Vec<Event> {
    convert_raw_log(&sanma_log_json(&[kyoku_json]), description)
}

fn kyoku_slice(events: &[Event], bakaze: Tile, kyoku: u8, honba: u8) -> &[Event] {
    let start = events
        .iter()
        .position(|event| {
            matches!(
                event,
                Event::StartKyoku {
                    bakaze: b,
                    kyoku: k,
                    honba: h,
                    ..
                } if *b == bakaze && *k == kyoku && *h == honba
            )
        })
        .expect("target kyoku should exist");
    let end = start
        + events[start..]
            .iter()
            .position(|event| matches!(event, Event::EndKyoku))
            .expect("target kyoku should end");
    &events[start..=end]
}

fn event_tiles(event: &Event) -> Vec<Tile> {
    match event {
        Event::StartKyoku {
            dora_marker,
            tehais,
            ..
        } => {
            let mut tiles = vec![*dora_marker];
            tiles.extend(tehais.iter().flatten().copied());
            tiles
        }
        Event::Tsumo { pai, .. }
        | Event::Dahai { pai, .. }
        | Event::Nukidora { pai, .. }
        | Event::Kakan { pai, .. } => vec![*pai],
        Event::Chi { pai, consumed, .. } | Event::Pon { pai, consumed, .. } => {
            let mut tiles = vec![*pai];
            tiles.extend(consumed);
            tiles
        }
        Event::Daiminkan { pai, consumed, .. } => {
            let mut tiles = vec![*pai];
            tiles.extend(consumed);
            tiles
        }
        Event::Ankan { consumed, .. } => consumed.to_vec(),
        Event::Dora { dora_marker } => vec![*dora_marker],
        Event::Hora { ura_markers, .. } => ura_markers.clone().unwrap_or_default(),
        _ => vec![],
    }
}

#[test]
fn converts_real_sanma_template() {
    let events = convert_game();
    let kyoku_count = events
        .iter()
        .filter(|event| matches!(event, Event::StartKyoku { .. }))
        .count();
    assert_eq!(kyoku_count, 7);
    assert!(events.len() > 100);
}

#[test]
fn sanma_start_metadata_has_three_actors() {
    let events = convert_game();
    let Event::StartGame { names, .. } = &events[0] else {
        panic!("first event should be start_game");
    };
    assert_eq!(names.len(), 3);

    for event in &events {
        if let Event::StartKyoku { scores, tehais, .. } = event {
            assert_eq!(scores.len(), 3);
            assert_eq!(tehais.len(), 3);
        }
    }
}

#[test]
fn sanma_template_contains_required_action_families() {
    let events = convert_game();

    assert!(
        events
            .iter()
            .any(|event| matches!(event, Event::Hora { actor, target, .. } if actor != target))
    );
    assert!(
        events
            .iter()
            .any(|event| matches!(event, Event::Hora { actor, target, .. } if actor == target))
    );
    assert!(events.iter().any(|event| matches!(event, Event::Reach { .. })));
    assert!(
        events
            .iter()
            .any(|event| matches!(event, Event::ReachAccepted { .. }))
    );
    assert!(events.iter().any(|event| matches!(event, Event::Pon { .. })));
    assert!(events.iter().any(|event| matches!(event, Event::Ankan { .. })));
    assert!(
        events
            .iter()
            .any(|event| matches!(event, Event::Nukidora { pai, .. } if *pai == t("N")))
    );
}

#[test]
fn converts_sanma_exhaustive_draw_result() {
    let mut row: Value = serde_json::from_str(SANMA_525BE759_BYSTANDER_PHANTOM_KYOKU_JSON).unwrap();
    *row.as_array_mut().unwrap().last_mut().unwrap() =
        serde_json::from_str(r#"["流局", [0, 0, 0, 0]]"#).unwrap();
    let events = convert_single_kyoku_json(&row.to_string(), "sanma exhaustive draw log");

    assert!(events.iter().any(|event| {
        matches!(event, Event::Ryukyoku { deltas: Some(deltas) } if deltas == &[0, 0, 0])
    }));
}

#[test]
fn sanma_template_has_no_fourth_actor_no_chi_and_no_removed_manzu() {
    let events = convert_game();

    for event in &events {
        assert!(!matches!(event, Event::Chi { .. }));
        assert!(!event.actor().is_some_and(|actor| actor == 3));

        for tile in event_tiles(event) {
            assert!(
                !matches!(tile.as_u8(), 1..=7 | 34),
                "sanma output contains removed tile {tile:?}"
            );
        }
    }
}

#[test]
fn sanma_initial_hand_kita_consumes_replacement_draws_before_normal_discard() {
    let events = convert_game();
    let start = events
        .iter()
        .position(|event| {
            matches!(
                event,
                Event::StartKyoku {
                    bakaze,
                    kyoku: 2,
                    honba: 0,
                    ..
                } if *bakaze == t("S")
            )
        })
        .expect("S2 honba 0 should exist");
    let s2 = &events[start..];

    let expected = [
        Event::Dahai {
            actor: 1,
            pai: t("9m"),
            tsumogiri: false,
        },
        Event::Tsumo {
            actor: 2,
            pai: t("C"),
        },
        Event::Nukidora {
            actor: 2,
            pai: t("N"),
        },
        Event::Tsumo {
            actor: 2,
            pai: t("6p"),
        },
        Event::Nukidora {
            actor: 2,
            pai: t("N"),
        },
        Event::Tsumo {
            actor: 2,
            pai: t("2p"),
        },
        Event::Dahai {
            actor: 2,
            pai: t("E"),
            tsumogiri: false,
        },
        Event::Tsumo {
            actor: 0,
            pai: t("9s"),
        },
    ];

    assert!(
        s2.windows(expected.len())
            .any(|window| window == expected.as_slice()),
        "S2 should consume initial-hand kita replacement draws before actor 2's normal discard"
    );
}

#[test]
fn sanma_tsumogiri_discards_match_latest_tsumo_tile() {
    let events = convert_game();
    let mut latest_tsumo = [None; 3];

    for event in events {
        match event {
            Event::Tsumo { actor, pai } => latest_tsumo[actor as usize] = Some(pai),
            Event::Dahai {
                actor,
                pai,
                tsumogiri: true,
            } => assert_eq!(
                latest_tsumo[actor as usize],
                Some(pai),
                "tsumogiri dahai should match actor {actor}'s latest tsumo"
            ),
            _ => (),
        }
    }
}

#[test]
fn sanma_nukidora_can_be_roned_without_replacement_draw() {
    let events = convert_single_kyoku_json(KITA_RON_KYOKU_JSON, "sanma ron-on-nukidora log");

    let ron_on_nukidora = events.windows(3).any(|window| {
        matches!(
            &window[0],
            Event::Nukidora {
                actor: nuki_actor,
                pai,
            } if *nuki_actor == 2 && *pai == t("N")
        ) && matches!(
            &window[1],
            Event::Hora {
                actor: 0,
                target: 2,
                ..
            }
        ) && matches!(window[2], Event::EndKyoku)
    });

    assert!(
        ron_on_nukidora,
        "nukidora should be a ron-able interrupt point like kakan"
    );
}

#[test]
fn sanma_daiminkan_replacement_tsumogiri_is_filled() {
    let events =
        convert_single_kyoku_json(DAIMINKAN_KYOKU_JSON, "sanma daiminkan replacement log");

    assert!(
        events.windows(4).any(|window| {
            matches!(
                window[0],
                Event::Daiminkan {
                    actor: 0,
                    target: 2,
                    pai,
                    ..
                } if pai == t("9s")
            ) && matches!(
                window[1],
                Event::Tsumo {
                    actor: 0,
                    pai,
                } if pai == t("E")
            ) && matches!(window[2], Event::Dora { .. })
                && matches!(
                    window[3],
                    Event::Dahai {
                        actor: 0,
                        pai,
                        tsumogiri: true,
                    } if pai == t("E")
                )
        }),
        "daiminkan replacement draw should fill the following tsumogiri discard"
    );

    for event in events {
        if let Event::Dahai { pai, .. } = event {
            assert_ne!(pai, t("?"), "converted dahai must not contain unknown tile");
        }
    }
}

#[test]
fn sanma_ron_stops_at_targets_final_discard() {
    let events = convert_single_kyoku_json(FINAL_DISCARD_RON_KYOKU_JSON, "sanma final discard ron log");

    assert!(
        events.windows(3).any(|window| {
            matches!(
                window[0],
                Event::Dahai {
                    actor: 2,
                    pai,
                    ..
                } if pai == t("8s")
            ) && matches!(
                window[1],
                Event::Hora {
                    actor: 1,
                    target: 2,
                    ..
                }
            ) && matches!(window[2], Event::EndKyoku)
        }),
        "ron should be emitted immediately after the target actor's final discard"
    );
}

#[test]
fn sanma_replay_converts_cfb86147_pon_branch() {
    let events =
        convert_single_kyoku_json(SANMA_CFB86147_KYOKU_JSON, "sanma cfb86147 pon branch log");
    let s3 = kyoku_slice(&events, t("E"), 3, 0);

    assert!(
        s3.iter().any(|event| matches!(
            event,
            Event::Hora {
                actor: 2,
                target: 0,
                ..
            }
        )),
        "cfb86147 branch should reach actor 2's ron on actor 0"
    );
    assert!(
        s3.iter().any(
            |event| matches!(event, Event::Pon { actor: 0, target: 2, pai, .. } if *pai == t("P"))
        ),
        "actor 0's late P pon must remain attached to actor 2's discard"
    );
}

#[test]
fn sanma_replay_defers_ambiguous_pon_until_after_riichi() {
    let events =
        convert_single_kyoku_json(SANMA_097ACC2B_KYOKU_JSON, "sanma 097acc2b pon branch log");
    let e3 = kyoku_slice(&events, t("E"), 3, 0);

    let reach_accepted = e3
        .iter()
        .position(|event| matches!(event, Event::ReachAccepted { actor: 1 }))
        .expect("actor 1 riichi should be accepted");
    let late_pon = e3
        .iter()
        .position(|event| {
            matches!(
                event,
                Event::Pon {
                    actor: 0,
                    target: 2,
                    pai,
                    ..
                } if *pai == t("P")
            )
        })
        .expect("actor 0 should pon actor 2's P");
    let hora = e3
        .iter()
        .position(|event| {
            matches!(
                event,
                Event::Hora {
                    actor: 1,
                    target: 0,
                    ..
                }
            )
        })
        .expect("actor 1 should ron actor 0");

    assert!(
        reach_accepted < late_pon && late_pon < hora,
        "ambiguous P pon should be attached to the post-riichi discard"
    );
    assert!(
        matches!(
            e3.get(late_pon - 1),
            Some(Event::Dahai {
                actor: 2,
                pai,
                tsumogiri: true,
            }) if *pai == t("P")
        ),
        "late pon should claim actor 2's post-riichi P tsumogiri"
    );
}

#[test]
fn sanma_replay_converts_no_ippatsu_counterexamples() {
    for (kyoku_json, description, actor, target) in [
        (
            SANMA_25E9BC69_KYOKU_JSON,
            "sanma 25e9bc69 no-ippatsu ron log",
            1,
            2,
        ),
        (
            SANMA_6C887319_KYOKU_JSON,
            "sanma 6c887319 no-ippatsu ron log",
            0,
            1,
        ),
    ] {
        let events = convert_single_kyoku_json(kyoku_json, description);
        let hora = events
            .iter()
            .find(|event| matches!(event, Event::Hora { actor: a, target: t, .. } if *a == actor && *t == target))
            .expect("target ron should convert");

        assert!(
            matches!(
                hora,
                Event::Hora {
                    deltas: Some(_),
                    ..
                }
            ),
            "{description} should preserve Tenhou deltas"
        );
    }
}

#[test]
fn sanma_bystander_phantom_discard_does_not_set_furiten_before_ron() {
    // 525be759 bug: actor 2 is a bystander whose Tenhou stream has a phantom
    // 1s draw+tsumogiri recorded after the game ends.  If the scheduler
    // processes actor 2's 1s discard before actor 1's real 1s discard, it
    // sets temporary_furiten on actor 0 (who is waiting for 1s).  The ron on
    // actor 1's discard must end the kyoku with that phantom left unread.
    let events = convert_single_kyoku_json(
        SANMA_525BE759_BYSTANDER_PHANTOM_KYOKU_JSON,
        "sanma 525be759 bystander phantom furiten log",
    );

    let hora_pos = events
        .iter()
        .position(|e| {
            matches!(
                e,
                Event::Hora {
                    actor: 0,
                    target: 1,
                    ..
                }
            )
        })
        .expect("actor 0 should ron actor 1's 1s");

    // Actor 2's phantom 1s discard must NOT appear before the hora.
    assert!(
        !events[..hora_pos]
            .iter()
            .any(|e| matches!(e, Event::Dahai { actor: 2, pai, .. } if *pai == t("1s"))),
        "bystander actor 2's phantom 1s discard must not precede actor 0's ron"
    );
}

#[test]
fn sanma_replay_keeps_real_turn_before_riichi_branch() {
    let events = convert_single_kyoku_json(
        REAL_TURN_BEFORE_RIICHI_KYOKU_JSON,
        "sanma real-turn-before-riichi branch log",
    );
    let e2 = kyoku_slice(&events, t("E"), 2, 0);

    assert!(
        e2.windows(10).any(|window| {
            matches!(window[0], Event::Tsumo { actor: 0, pai } if pai == t("4s"))
                && matches!(
                    window[1],
                    Event::Dahai { actor: 0, pai, tsumogiri: true } if pai == t("4s")
                )
                && matches!(window[2], Event::Tsumo { actor: 1, pai } if pai == t("6s"))
                && matches!(
                    window[3],
                    Event::Dahai { actor: 1, pai, tsumogiri: false } if pai == t("F")
                )
                && matches!(window[4], Event::Tsumo { actor: 2, pai } if pai == t("9m"))
                && matches!(
                    window[5],
                    Event::Dahai { actor: 2, pai, tsumogiri: true } if pai == t("9m")
                )
                && matches!(window[6], Event::Tsumo { actor: 0, pai } if pai == t("8s"))
                && matches!(
                    window[7],
                    Event::Dahai { actor: 0, pai, tsumogiri: true } if pai == t("8s")
                )
                && matches!(window[8], Event::Tsumo { actor: 1, pai } if pai == t("3p"))
                && matches!(window[9], Event::Reach { actor: 1 })
        }),
        "a real actor 1 6s/F turn must be consumed before actor 1's later riichi"
    );
}

#[test]
fn sanma_replay_waits_until_houtei_ron_branch() {
    let events = convert_single_kyoku_json(HOUTEI_RON_KYOKU_JSON, "sanma houtei branch log");
    let e1_2 = kyoku_slice(&events, t("E"), 1, 2);

    // Final three events: actor 2 draws 6p, discards 4s, actor 1 rons.
    assert!(
        e1_2.windows(3).any(|window| {
            matches!(window[0], Event::Tsumo { actor: 2, pai } if pai == t("6p"))
                && matches!(
                    window[1],
                    Event::Dahai {
                        actor: 2,
                        pai,
                        tsumogiri: false,
                    } if pai == t("4s")
                )
                && matches!(
                    window[2],
                    Event::Hora {
                        actor: 1,
                        target: 2,
                        ..
                    }
                )
        }),
        "houtei ron branch should not end before the final live-wall discard"
    );

    // Actor 0's two tsumogiri turns (P and 1p) must both appear before the hora.
    let hora_pos = e1_2
        .iter()
        .rposition(|e| {
            matches!(
                e,
                Event::Hora {
                    actor: 1,
                    target: 2,
                    ..
                }
            )
        })
        .expect("hora should exist");
    let pre_hora = &e1_2[..hora_pos];
    assert!(
        pre_hora
            .iter()
            .any(|e| matches!(e, Event::Dahai { actor: 0, pai, tsumogiri: true } if *pai == t("P"))),
        "actor 0 must tsumogiri P before houtei hora"
    );
    assert!(
        pre_hora.iter().any(
            |e| matches!(e, Event::Dahai { actor: 0, pai, tsumogiri: true } if *pai == t("1p"))
        ),
        "actor 0 must tsumogiri 1p before houtei hora"
    );
}

#[test]
fn sanma_replay_keeps_terminal_cleanup_before_tanyao_ron() {
    let events = convert_single_kyoku_json(
        TERMINAL_CLEANUP_RON_KYOKU_JSON,
        "sanma tanyao ron branch log",
    );
    let e1 = kyoku_slice(&events, t("E"), 1, 0);

    assert!(
        e1.windows(7).any(|window| {
            matches!(window[0], Event::Tsumo { actor: 2, pai } if pai == t("4s"))
                && matches!(
                    window[1],
                    Event::Dahai {
                        actor: 2,
                        pai,
                        tsumogiri: false,
                    } if pai == t("1s")
                )
                && matches!(window[2], Event::Tsumo { actor: 0, .. })
                && matches!(
                    window[3],
                    Event::Dahai {
                        actor: 0,
                        tsumogiri: true,
                        ..
                    }
                )
                && matches!(window[4], Event::Tsumo { actor: 1, pai } if pai == t("2s"))
                && matches!(
                    window[5],
                    Event::Dahai {
                        actor: 1,
                        pai,
                        tsumogiri: true,
                    } if pai == t("2s")
                )
                && matches!(
                    window[6],
                    Event::Hora {
                        actor: 2,
                        target: 1,
                        ..
                    }
                )
        }),
        "tanyao ron branch should keep actor 2's real terminal-clearing draw/discard"
    );
}

#[test]
fn sanma_passed_kakan_ron_branch_is_deprioritized() {
    let events = convert_single_kyoku_json(
        SANMA_525BE759_KAKAN_BRANCH_KYOKU_JSON,
        "sanma 525be759 kakan branch log",
    );

    let kakan_pos = events
        .iter()
        .position(|event| {
            matches!(
                event,
                Event::Kakan {
                    actor: 1,
                    pai,
                    ..
                } if *pai == t("4s")
            )
        })
        .expect("actor 1 should kakan 4s");
    let actor0_8s_pos = events
        .iter()
        .position(|event| matches!(event, Event::Tsumo { actor: 0, pai } if *pai == t("8s")))
        .expect("actor 0 should draw 8s");
    let hora_pos = events
        .iter()
        .position(|event| {
            matches!(
                event,
                Event::Hora {
                    actor: 0,
                    target: 1,
                    ..
                }
            )
        })
        .expect("actor 0 should ron actor 1");

    assert!(
        kakan_pos < actor0_8s_pos,
        "actor 1's kakan must precede actor 0's 8s draw"
    );
    assert!(
        actor0_8s_pos < hora_pos,
        "actor 0's 8s draw is a real turn before the final ron"
    );
}

#[test]
fn sanma_replay_does_not_promote_future_pon_across_nukidora() {
    let events = convert_single_kyoku_json(NUKIDORA_THEN_PON_KYOKU_JSON, "sanma nukidora then pon log");
    let start = events
        .iter()
        .position(|event| {
            matches!(
                event,
                Event::StartKyoku {
                    bakaze,
                    kyoku: 2,
                    honba: 1,
                    ..
                } if *bakaze == t("S")
            )
        })
        .expect("S2 honba 1 should exist");
    let end = start
        + events[start..]
            .iter()
            .position(|event| matches!(event, Event::EndKyoku))
            .expect("S2 honba 1 should end");
    let s2_1 = &events[start..=end];

    let actor2_nuki = s2_1
        .iter()
        .position(|event| {
            matches!(
                event,
                Event::Nukidora {
                    actor: 2,
                    pai,
                } if *pai == t("N")
            )
        })
        .expect("actor 2 should nuki before the later pon");
    let actor0_nuki = s2_1
        .iter()
        .position(|event| {
            matches!(
                event,
                Event::Nukidora {
                    actor: 0,
                    pai,
                } if *pai == t("N")
            )
        })
        .expect("actor 0 should nuki before the later pon");
    let future_pon = s2_1
        .iter()
        .position(|event| {
            matches!(
                event,
                Event::Pon {
                    actor: 1,
                    target: 0,
                    pai,
                    consumed,
                } if *pai == t("6s") && *consumed == [t("6s"), t("6s")]
            )
        })
        .expect("actor 1's future pon should appear naturally");

    assert!(
        actor2_nuki < actor0_nuki && actor0_nuki < future_pon,
        "future pon must not be promoted across prior nukidora actions"
    );

    assert!(
        s2_1.windows(2).any(|window| {
            matches!(
                window[0],
                Event::Dahai {
                    actor: 0,
                    pai,
                    tsumogiri: false,
                } if pai == t("6s")
            ) && matches!(
                window[1],
                Event::Pon {
                    actor: 1,
                    target: 0,
                    pai,
                    ..
                } if pai == t("6s")
            )
        }),
        "future pon should remain attached to the actual later 6s discard"
    );

    assert!(
        s2_1.windows(4).any(|window| {
            matches!(
                window[0],
                Event::Tsumo {
                    actor: 1,
                    pai,
                } if pai == t("9s")
            ) && matches!(
                window[1],
                Event::Dahai {
                    actor: 1,
                    pai,
                    tsumogiri: true,
                } if pai == t("9s")
            ) && matches!(
                window[2],
                Event::Hora {
                    actor: 2,
                    target: 1,
                    ..
                }
            ) && matches!(window[3], Event::EndKyoku)
        }),
        "the round should still reach the later actor 1 tsumogiri ron"
    );
}

#[test]
fn sanma_replay_attaches_late_stream_pon_to_earlier_discard() {
    let events = convert_single_kyoku_json(LATE_PON_KYOKU_JSON, "sanma late pon log");
    let start = events
        .iter()
        .position(|event| {
            matches!(
                event,
                Event::StartKyoku {
                    bakaze,
                    kyoku: 3,
                    honba: 1,
                    ..
                } if *bakaze == t("E")
            )
        })
        .expect("E3 honba 1 should exist");
    let end = start
        + events[start..]
            .iter()
            .position(|event| matches!(event, Event::EndKyoku))
            .expect("E3 honba 1 should end");
    let e3_1 = &events[start..=end];

    assert!(
        e3_1.windows(7).any(|window| {
            matches!(
                window[0],
                Event::Dahai {
                    actor: 2,
                    pai,
                    tsumogiri: true,
                } if pai == t("F")
            ) && matches!(
                window[1],
                Event::Pon {
                    actor: 0,
                    target: 2,
                    pai,
                    consumed,
                } if pai == t("F") && consumed == [t("F"), t("F")]
            ) && matches!(
                window[2],
                Event::Dahai {
                    actor: 0,
                    pai,
                    tsumogiri: false,
                } if pai == t("9m")
            ) && matches!(
                window[3],
                Event::Tsumo {
                    actor: 1,
                    pai,
                } if pai == t("W")
            ) && matches!(
                window[4],
                Event::Dahai {
                    actor: 1,
                    pai,
                    tsumogiri: false,
                } if pai == t("F")
            ) && matches!(window[5], Event::Ryukyoku { .. })
                && matches!(window[6], Event::EndKyoku)
        }),
        "actor 0's final pon should claim actor 2's F before actor 1's later W/F turn"
    );
}

#[test]
fn sanma_replay_rejects_passed_ron_furiten_branch() {
    let events = convert_single_kyoku_json(RON_AFTER_TURNS_KYOKU_JSON, "sanma furiten log");
    let s3_1 = kyoku_slice(&events, t("S"), 3, 1);

    assert!(
        s3_1.windows(7).any(|window| {
            matches!(
                window[0],
                Event::Tsumo {
                    actor: 1,
                    pai,
                } if pai == t("9m")
            ) && matches!(
                window[1],
                Event::Dahai {
                    actor: 1,
                    pai,
                    tsumogiri: false,
                } if pai == t("7p")
            ) && matches!(
                window[2],
                Event::Tsumo {
                    actor: 2,
                    pai,
                } if pai == t("7s")
            ) && matches!(
                window[3],
                Event::Dahai {
                    actor: 2,
                    pai,
                    tsumogiri: false,
                } if pai == t("9p")
            ) && matches!(
                window[4],
                Event::Tsumo {
                    actor: 0,
                    pai,
                } if pai == t("4s")
            ) && matches!(
                window[5],
                Event::Dahai {
                    actor: 0,
                    pai,
                    tsumogiri: true,
                } if pai == t("4s")
            ) && matches!(
                window[6],
                Event::Hora {
                    actor: 2,
                    target: 0,
                    ..
                }
            )
        }),
        "actor 2's 7s/9p tenpai turn must not be scheduled before actor 0's earlier 1s discard"
    );
}

#[test]
fn sanma_dora_events_reveal_recorded_indicators_in_order() {
    let events = convert_single_kyoku_json(DAIMINKAN_KYOKU_JSON, "sanma daiminkan log");
    let doras: Vec<Tile> = events
        .iter()
        .filter_map(|event| match event {
            Event::Dora { dora_marker } => Some(*dora_marker),
            _ => None,
        })
        .collect();
    assert_eq!(doras, vec![t("2p")]);
    assert!(matches!(&events[1], Event::StartKyoku { dora_marker, .. } if *dora_marker == t("1p")));

    let events = convert_single_kyoku_json(RIICHI_ANKAN_TSUMO_KYOKU_JSON, "sanma ankan log");
    let doras: Vec<Tile> = events
        .iter()
        .filter_map(|event| match event {
            Event::Dora { dora_marker } => Some(*dora_marker),
            _ => None,
        })
        .collect();
    assert_eq!(doras, vec![t("P")]);
}
