use socialdb_indexer::diagnostics::{is_malformed_entry_text, payload_warnings, receipt_warnings, Warning};
use socialdb_indexer::entry::{decode_index_value, index_entries};
use socialdb_indexer::events::{payload_events, receipt_events};
use socialdb_indexer::indexer::{SocialDBIndexer, SOCIALDB_CONTRACT};
use socialdb_indexer::json::{compare_text, Json};
use socialdb_indexer::model::{is_eligible, is_owned_by_caller, Action, IndexEvent, Receipt};
use socialdb_indexer::order::sort_index_types;
use socialdb_indexer::payload::decode_payload;
use socialdb_indexer::sink::BoundedEventLog;

fn to_value(j: &Json) -> serde_json::Value {
    match j {
        Json::Null => serde_json::Value::Null,
        Json::Bool(b) => serde_json::Value::Bool(*b),
        Json::Number(n) => serde_json::Value::Number(n.clone()),
        Json::Str(s) => serde_json::Value::String(s.clone()),
        Json::Array(items) => serde_json::Value::Array(items.iter().map(to_value).collect()),
        Json::Object(fields) => {
            let mut m = serde_json::Map::new();
            for (k, v) in fields {
                m.insert(k.clone(), to_value(v));
            }
            serde_json::Value::Object(m)
        }
    }
}

fn set_call(args: &str) -> Action {
    Action::FunctionCall { method_name: "set".to_string(), args: args.as_bytes().to_vec() }
}

fn receipt(predecessor: &str, actions: Vec<Action>) -> Receipt {
    Receipt {
        receipt_id: [1; 32],
        transaction_id: [2; 32],
        block_height: 124058852,
        block_timestamp_nanosec: 1_717_000_000_000_000_000,
        receiver_id: "social.near".to_string(),
        predecessor_id: predecessor.to_string(),
        is_successful: true,
        actions,
    }
}

/// Serialises `(account, index type, key, value)` of each event.
fn summary(events: &[IndexEvent]) -> String {
    let rows: Vec<serde_json::Value> = events
        .iter()
        .map(|e| {
            serde_json::Value::Array(vec![
                serde_json::Value::String(e.account_id.clone()),
                serde_json::Value::String(e.index_type.clone()),
                to_value(&e.index_key),
                to_value(&e.index_value),
            ])
        })
        .collect();
    serde_json::to_string(&serde_json::Value::Array(rows)).unwrap()
}

fn conv(v: serde_json::Value) -> Json {
    match v {
        serde_json::Value::Null => Json::Null,
        serde_json::Value::Bool(b) => Json::Bool(b),
        serde_json::Value::Number(n) => Json::Number(n),
        serde_json::Value::String(s) => Json::Str(s),
        serde_json::Value::Array(a) => Json::Array(a.into_iter().map(conv).collect()),
        serde_json::Value::Object(m) => Json::Object(m.into_iter().map(|(k, v)| (k, conv(v))).collect()),
    }
}

fn json_of(text: &str) -> Json {
    conv(serde_json::from_str(text).unwrap())
}

/// `{"data": {account: {"index": {type: raw, ...}}}}` with the members in the given order.
fn args_json(account: &str, index: &[(&str, &str)]) -> Json {
    let members: Vec<(String, Json)> =
        index.iter().map(|(t, raw)| (t.to_string(), Json::Str(raw.to_string()))).collect();
    let user = Json::Object(vec![("index".to_string(), Json::Object(members))]);
    let data = Json::Object(vec![(account.to_string(), user)]);
    Json::Object(vec![("data".to_string(), data)])
}

fn args_text(account: &str, index: &[(&str, &str)]) -> String {
    serde_json::to_string(&to_value(&args_json(account, index))).unwrap()
}

const DAO_NOTIFY: &str = r#"{"message":"slimedragon.near created Transfer proposal for intear.sputnik-dao.near","params":{"daoId":"intear.sputnik-dao.near","page":"dao","tab":"proposals"},"type":"custom","widget":"astraplusplus.ndctools.near/widget/home"}"#;

fn dao_args() -> String {
    let entries: Vec<String> = ["slimedragon.near", "bjirken.near", "mohaa.near", "dyolo.near"]
        .iter()
        .map(|k| format!(r#"{{"key":"{}","value":{}}}"#, k, DAO_NOTIFY))
        .collect();
    let raw = format!("[{}]", entries.join(","));
    args_text("slimedragon.near", &[("notify", &raw)])
}

#[test]
fn handles_dao_proposals() {
    let r = receipt("slimedragon.near", vec![set_call(&dao_args())]);
    let events = receipt_events(&r, SOCIALDB_CONTRACT);
    assert_eq!(
        summary(&events),
        r#"[["slimedragon.near","notify","slimedragon.near",{"message":"slimedragon.near created Transfer proposal for intear.sputnik-dao.near","params":{"daoId":"intear.sputnik-dao.near","page":"dao","tab":"proposals"},"type":"custom","widget":"astraplusplus.ndctools.near/widget/home"}],["slimedragon.near","notify","bjirken.near",{"message":"slimedragon.near created Transfer proposal for intear.sputnik-dao.near","params":{"daoId":"intear.sputnik-dao.near","page":"dao","tab":"proposals"},"type":"custom","widget":"astraplusplus.ndctools.near/widget/home"}],["slimedragon.near","notify","mohaa.near",{"message":"slimedragon.near created Transfer proposal for intear.sputnik-dao.near","params":{"daoId":"intear.sputnik-dao.near","page":"dao","tab":"proposals"},"type":"custom","widget":"astraplusplus.ndctools.near/widget/home"}],["slimedragon.near","notify","dyolo.near",{"message":"slimedragon.near created Transfer proposal for intear.sputnik-dao.near","params":{"daoId":"intear.sputnik-dao.near","page":"dao","tab":"proposals"},"type":"custom","widget":"astraplusplus.ndctools.near/widget/home"}]]"#,
    );
}

#[test]
fn handles_posts() {
    let args = r#"{"data":{"devgovgigs.near":{"post":{"main":"{\"type\":\"md\",\"text\":\"hello\"}"},"index":{"post":"{\"key\":\"main\",\"value\":{\"type\":\"md\"}}"}}}}"#;
    let r = receipt("devgovgigs.near", vec![set_call(args)]);
    let events = receipt_events(&r, SOCIALDB_CONTRACT);
    assert_eq!(summary(&events), r#"[["devgovgigs.near","post","main",{"type":"md"}]]"#);
}

const LIKE_RAW: &str = r#"{"key":{"type":"social","path":"devgovgigs.near/post/main","blockHeight":124058852},"value":{"type":"like"}}"#;
const NOTIFY_RAW: &str = r#"{"key":"devgovgigs.near","value":{"type":"like","item":{"type":"social","path":"devgovgigs.near/post/main","blockHeight":124058852}}}"#;

#[test]
fn handles_like_with_notify() {
    let args = args_text("nearversedao.near", &[("notify", NOTIFY_RAW), ("like", LIKE_RAW)]);
    let r = receipt("nearversedao.near", vec![set_call(&args)]);
    let events = receipt_events(&r, SOCIALDB_CONTRACT);
    assert_eq!(
        summary(&events),
        "[[\"nearversedao.near\",\"like\",{\"blockHeight\":124058852,\"path\":\"devgovgigs.near/post/main\",\"type\":\"social\"},{\"type\":\"like\"}],[\"nearversedao.near\",\"notify\",\"devgovgigs.near\",{\"item\":{\"blockHeight\":124058852,\"path\":\"devgovgigs.near/post/main\",\"type\":\"social\"},\"type\":\"like\"}]]"
    );
}

#[test]
fn like_precedes_notify_whatever_the_member_order() {
    let r = receipt("nearversedao.near", vec![]);
    let args = args_json("nearversedao.near", &[("notify", NOTIFY_RAW), ("like", LIKE_RAW)]);
    let events = payload_events(&r, &args);
    assert_eq!(events.len(), 2);
    assert_eq!(events[0].index_type, "like");
    assert_eq!(events[1].index_type, "notify");
    assert_eq!(events[0].block_height, 124058852);
    assert_eq!(events[0].receipt_id, [1; 32]);
    assert_eq!(events[0].transaction_id, [2; 32]);
    assert_eq!(events[0].block_timestamp_nanosec, 1_717_000_000_000_000_000);
}

#[test]
fn index_types_in_ascending_order_entries_in_list_order() {
    let r = receipt("a.near", vec![]);
    let args = args_json(
        "a.near",
        &[
            ("post", r#"{"key":"main","value":1}"#),
            ("like", r#"[{"key":"x","value":1},{"key":"y","value":2}]"#),
            ("Zeta", r#"{"key":"z","value":3}"#),
        ],
    );
    let events = payload_events(&r, &args);
    assert_eq!(
        summary(&events),
        r#"[["a.near","Zeta","z",3],["a.near","like","x",1],["a.near","like","y",2],["a.near","post","main",1]]"#
    );
}

#[test]
fn malformed_entry_skips_only_that_index_type() {
    let args = args_text(
        "a.near",
        &[("bad", "42"), ("broken", "{not json"), ("half", r#"[{"key":1,"value":2},{"key":3}]"#), ("post", r#"{"key":"main","value":{"type":"md"}}"#)],
    );
    let r = receipt("a.near", vec![set_call(&args)]);
    let events = receipt_events(&r, SOCIALDB_CONTRACT);
    assert_eq!(summary(&events), r#"[["a.near","post","main",{"type":"md"}]]"#);
}

#[test]
fn event_count_sums_entries_over_actions() {
    let one = args_text("a.near", &[("post", r#"{"key":"main","value":1}"#)]);
    let three = args_text("a.near", &[("notify", r#"[{"key":"b","value":1},{"key":"c","value":2}]"#), ("like", r#"{"key":"k","value":0}"#)]);
    let empty = args_text("a.near", &[("like", "[]")]);
    let r = receipt("a.near", vec![set_call(&one), Action::Other, set_call(&three), set_call(&empty)]);
    let events = receipt_events(&r, SOCIALDB_CONTRACT);
    assert_eq!(events.len(), 4);
    assert_eq!(
        summary(&events),
        r#"[["a.near","post","main",1],["a.near","like","k",0],["a.near","notify","b",1],["a.near","notify","c",2]]"#
    );
}

#[test]
fn other_accounts_data_is_ignored() {
    let args = r#"{"data":{"a.near":{"index":{"post":"{\"key\":\"mine\",\"value\":1}"}},"b.near":{"index":{"post":"{\"key\":\"theirs\",\"value\":2}"}}}}"#;
    let r = receipt("a.near", vec![set_call(args)]);
    let events = receipt_events(&r, SOCIALDB_CONTRACT);
    assert_eq!(summary(&events), r#"[["a.near","post","mine",1]]"#);
    for e in &events {
        assert_eq!(e.account_id, r.predecessor_id);
    }
    let intruder = receipt("c.near", vec![set_call(args)]);
    assert!(receipt_events(&intruder, SOCIALDB_CONTRACT).is_empty());
}

#[test]
fn ineligible_receipts_yield_nothing() {
    let args = args_text("a.near", &[("post", r#"{"key":"main","value":1}"#)]);
    let mut failed = receipt("a.near", vec![set_call(&args)]);
    failed.is_successful = false;
    assert!(receipt_events(&failed, SOCIALDB_CONTRACT).is_empty());
    let mut elsewhere = receipt("a.near", vec![set_call(&args)]);
    elsewhere.receiver_id = "other.near".to_string();
    assert!(receipt_events(&elsewhere, SOCIALDB_CONTRACT).is_empty());
    assert_eq!(receipt_events(&elsewhere, "other.near").len(), 1);
    let other_method = receipt(
        "a.near",
        vec![Action::FunctionCall { method_name: "set_data".to_string(), args: args.as_bytes().to_vec() }, Action::Other],
    );
    assert!(receipt_events(&other_method, SOCIALDB_CONTRACT).is_empty());
    assert!(is_eligible(&receipt("a.near", vec![]), "social.near"));
    assert!(!is_eligible(&failed, "social.near"));
}

#[test]
fn malformed_payload_skips_the_whole_action() {
    let good = args_text("a.near", &[("post", r#"{"key":"main","value":1}"#)]);
    let cases = [
        "not json at all",
        r#"{"other":{}}"#,
        r#"{"data":[]}"#,
        r#"{"data":{"a.near":{"post":{}}}}"#,
        r#"{"data":{"a.near":{"index":{"post":5}}}}"#,
        r#"{"data":{"a.near":{"index":{"post":"{\"key\":1,\"value\":1}"}},"b.near":{"profile":{}}}}"#,
        r#"{"data":{"a.near":{"index":{"post":"{\"key\":1,\"value\":1}"}},"Not An Account!":{"index":{}}}}"#,
    ];
    for args in cases {
        let r = receipt("a.near", vec![set_call(args), set_call(&good)]);
        let events = receipt_events(&r, SOCIALDB_CONTRACT);
        assert_eq!(summary(&events), r#"[["a.near","post","main",1]]"#, "{}", args);
    }
}

#[test]
fn decoding_twice_gives_the_same_events() {
    let r = receipt("slimedragon.near", vec![set_call(&dao_args())]);
    let first = summary(&receipt_events(&r, SOCIALDB_CONTRACT));
    let second = summary(&receipt_events(&r, SOCIALDB_CONTRACT));
    assert_eq!(first, second);
    assert_eq!(receipt_events(&r, SOCIALDB_CONTRACT).len(), 4);
}

#[test]
fn entry_shapes() {
    let single = index_entries(json_of(r#"{"key":"k","value":[1,2],"extra":true}"#)).unwrap();
    assert_eq!(single.len(), 1);
    assert_eq!(to_value(&single[0].0), serde_json::Value::String("k".to_string()));
    let list = index_entries(json_of(r#"[{"key":1,"value":null},{"key":2,"value":false}]"#)).unwrap();
    assert_eq!(list.len(), 2);
    assert_eq!(to_value(&list[1].0).to_string(), "2");
    assert!(index_entries(json_of(r#"{"key":1}"#)).is_none());
    assert!(index_entries(json_of(r#"[{"key":1,"value":1},2]"#)).is_none());
    assert!(index_entries(json_of("\"text\"")).is_none());
    assert_eq!(index_entries(json_of("[]")).unwrap().len(), 0);
    assert_eq!(decode_index_value(r#"{"key":"a","value":"b"}"#).len(), 1);
    assert_eq!(decode_index_value("oops").len(), 0);
}

#[test]
fn payload_shapes() {
    let ok = json_of(r#"{"data":{"a.near":{"index":{"post":"x"},"post":{}}},"extra":1}"#);
    let accounts = decode_payload(&ok).unwrap();
    assert_eq!(accounts.len(), 1);
    assert_eq!(accounts[0].0, "a.near");
    assert!(decode_payload(&json_of(r#"{"data":{"a.near":{"index":{"post":1}}}}"#)).is_none());
    assert!(decode_payload(&json_of("[]")).is_none());
    for bad in ["a", "A.near", "a..near", ".a.near", "a.near-", "a b.near"] {
        let text = format!(r#"{{"data":{{"{}":{{"index":{{}}}}}}}}"#, bad);
        assert!(decode_payload(&json_of(&text)).is_none(), "{}", bad);
    }
    for good in ["ab", "a-b_c.near", "0x1.near"] {
        let text = format!(r#"{{"data":{{"{}":{{"index":{{}}}}}}}}"#, good);
        assert!(decode_payload(&json_of(&text)).is_some(), "{}", good);
    }
}

#[test]
fn texts_compare_lexicographically() {
    assert!(compare_text("like", "notify") < 0);
    assert!(compare_text("notify", "like") > 0);
    assert_eq!(compare_text("post", "post"), 0);
    assert!(compare_text("post", "posts") < 0);
    assert!(compare_text("", "a") < 0);
    assert!(compare_text("Z", "a") < 0);
    assert!(is_owned_by_caller("a.near", "a.near"));
    assert!(!is_owned_by_caller("a.near", "b.near"));
    let sorted = sort_index_types(&vec![
        ("post".to_string(), "1".to_string()),
        ("like".to_string(), "2".to_string()),
        ("notify".to_string(), "3".to_string()),
        ("like".to_string(), "4".to_string()),
    ]);
    let order: Vec<(&str, &str)> = sorted.iter().map(|(a, b)| (a.as_str(), b.as_str())).collect();
    assert_eq!(order, vec![("like", "2"), ("like", "4"), ("notify", "3"), ("post", "1")]);
}

fn event(key: u64) -> IndexEvent {
    IndexEvent {
        block_height: key,
        block_timestamp_nanosec: 0,
        transaction_id: [0; 32],
        receipt_id: [0; 32],
        account_id: "a.near".to_string(),
        index_type: "post".to_string(),
        index_key: json_of(&key.to_string()),
        index_value: Json::Null,
    }
}

fn heights(events: &[IndexEvent]) -> Vec<u64> {
    events.iter().map(|e| e.block_height).collect()
}

#[test]
fn sink_trims_oldest_beyond_maximum() {
    let mut log = BoundedEventLog::new(3);
    log.push(event(1));
    log.push(event(2));
    assert_eq!(heights(log.pending()), vec![1, 2]);
    assert!(log.resident().is_empty());
    log.flush(10);
    assert_eq!(heights(log.resident()), vec![1, 2]);
    assert!(log.pending().is_empty());
    for k in 3..6 {
        log.push(event(k));
    }
    log.flush(11);
    assert_eq!(heights(log.resident()), vec![3, 4, 5]);
    assert_eq!(log.last_flushed(), Some(11));
    assert_eq!(log.max_size(), 3);
    let mut none = BoundedEventLog::new(0);
    none.push(event(7));
    none.flush(1);
    assert!(none.resident().is_empty());
}

#[test]
fn indexer_hands_events_to_handler_per_block() {
    let mut indexer = SocialDBIndexer::new(BoundedEventLog::new(2));
    let r = receipt("slimedragon.near", vec![set_call(&dao_args())]);
    assert_eq!(indexer.on_receipt(&r), 4);
    assert_eq!(indexer.handler.pending().len(), 4);
    indexer.process_block_end(r.block_height);
    assert_eq!(indexer.handler.resident().len(), 2);
    let keys: Vec<String> = indexer.handler.resident().iter().map(|e| to_value(&e.index_key).to_string()).collect();
    assert_eq!(keys, vec!["\"mohaa.near\"", "\"dyolo.near\""]);
    assert_eq!(indexer.handler.last_flushed(), Some(124058852));
    assert_eq!(indexer.contract_id, "social.near");
    let mut custom = SocialDBIndexer::with_contract(BoundedEventLog::new(10), "social.test".to_string());
    assert_eq!(custom.on_receipt(&r), 0);
    assert!(custom.handler.pending().is_empty());
}

fn describe(ws: &[Warning]) -> Vec<String> {
    ws.iter()
        .map(|w| match w {
            Warning::ForeignAccount { account } => format!("foreign {}", account),
            Warning::MalformedEntry { index_type, raw } => format!("malformed {} {}", index_type, raw),
        })
        .collect()
}

#[test]
fn warnings_name_foreign_accounts_and_malformed_entries() {
    let args = r#"{"data":{"a.near":{"index":{"zz":"42","post":"{\"key\":\"k\",\"value\":1}","bad":"{oops"}},"b.near":{"index":{}}}}"#;
    let r = receipt("a.near", vec![set_call(args), Action::Other]);
    assert_eq!(
        describe(&receipt_warnings(&r, SOCIALDB_CONTRACT)),
        vec!["malformed bad {oops".to_string(), "malformed zz 42".to_string(), "foreign b.near".to_string()]
    );
    let mut failed = receipt("a.near", vec![set_call(args)]);
    failed.is_successful = false;
    assert!(receipt_warnings(&failed, SOCIALDB_CONTRACT).is_empty());
    let payload = json_of(args);
    assert_eq!(payload_warnings(&r, &payload).len(), 3);
    assert!(is_malformed_entry_text("[1]"));
    assert!(!is_malformed_entry_text("[]"));
    assert!(!is_malformed_entry_text(r#"{"key":1,"value":2}"#));
}
