use ghost_catalog::ast::{GhostData, GhostJson};
use ghost_catalog::codec::{parse_catalog, serialize_catalog};
use ghost_catalog::procedure::merge_loaded;

fn record(d: &str, s: &str, k: &str) -> GhostData {
    GhostData::new(d.to_string(), s.to_string(), k.to_string())
}

fn four_records() -> Vec<GhostData> {
    vec![
        record("100th_year", "霊", ""),
        record("FoxTheory", "リサ", "book"),
        record("tanumki", "きつね", "たぬき"),
        record("tcidelam", "シデラム", ""),
    ]
}

const FULL_DOC: &str = r#"{"update":"2023-12-18T07:18:31.808Z","ghostList":[{"directory":"100th_year","sakuraName":"霊","keroName":""},{"directory":"FoxTheory","sakuraName":"リサ","keroName":"book"},{"directory":"tanumki","sakuraName":"きつね","keroName":"たぬき"},{"directory":"tcidelam","sakuraName":"シデラム","keroName":""}]}"#;

#[test]
fn ast_checking_value() {
    let update = "2023-12-18T07:18:31.808Z".to_string();
    let ghost_list = four_records();
    let result = GhostJson::new(update, four_records());
    assert_eq!(result.update(), "2023-12-18T07:18:31.808Z");
    assert_eq!(result.ghost_list(), &ghost_list);
}

#[test]
fn ghost_data_checking_value() {
    let g = record("tanumki", "きつね", "たぬき");
    assert_eq!(g.directory(), "tanumki");
    assert_eq!(g.sakura_name(), "きつね");
    assert_eq!(g.kero_name(), "たぬき");
}

#[test]
fn success_when_valid_str() {
    let result = parse_catalog(FULL_DOC).unwrap();
    assert_eq!(result.update(), "2023-12-18T07:18:31.808Z");
    assert_eq!(result.ghost_list(), &four_records());

    let case = r#"{"update":"2023-12-18T07:18:31.808Z","ghostList":[]}"#;
    let result = parse_catalog(case).unwrap();
    assert_eq!(result.update(), "2023-12-18T07:18:31.808Z");
    assert_eq!(result.ghost_list().len(), 0);
}

#[test]
fn failed_when_invalid_str() {
    let case = r#"{"ghostList":[{"directory":"100th_year","sakuraName":"霊","keroName":""}]}"#;
    assert!(parse_catalog(case).is_err());

    let case = r#"{"update":"2023-12-18T07:18:31.808Z"}"#;
    assert!(parse_catalog(case).is_err());
}

#[test]
fn serialize_checking_value() {
    let case = GhostJson::new("2023-12-18T07:18:31.808Z".to_string(), four_records());
    let result = serialize_catalog(&case);
    assert_eq!(result, FULL_DOC);
}

#[test]
fn round_trip_returns_the_catalog() {
    let case = GhostJson::new("2023-12-18T07:18:31.808Z".to_string(), four_records());
    let back = parse_catalog(&serialize_catalog(&case)).unwrap();
    assert_eq!(back, case);
}

#[test]
fn round_trip_with_escaped_characters() {
    let case = GhostJson::new(
        "2023-12-18T07:18:31.808Z".to_string(),
        vec![record("a\"b\\c", "line\nbreak", "tab\tand\u{1}ctl")],
    );
    let text = serialize_catalog(&case);
    assert!(text.contains(r#""directory":"a\"b\\c""#));
    assert!(text.contains(r#""sakuraName":"line\nbreak""#));
    assert!(text.contains(r#""keroName":"tab\tand\u0001ctl""#));
    let back = parse_catalog(&text).unwrap();
    assert_eq!(back, case);
}

#[test]
fn parser_accepts_whitespace_and_unicode_escapes() {
    let case = "\n{ \"update\" : \"\\u0041Z\" ,\r\n  \"ghostList\" : [ { \"directory\" : \"d\" , \"sakuraName\" : \"s\" , \"keroName\" : \"k\" } ] }\n";
    let result = parse_catalog(case).unwrap();
    assert_eq!(result.update(), "AZ");
    assert_eq!(result.ghost_list(), &vec![record("d", "s", "k")]);
}

#[test]
fn parser_rejects_malformed_documents() {
    assert!(parse_catalog("").is_err());
    assert!(parse_catalog("{}").is_err());
    assert!(parse_catalog(r#"{"update":"x","ghostList":"#).is_err());
    assert!(parse_catalog(r#"{"update":"x","ghostList":[}"#).is_err());
    assert!(parse_catalog(r#"{"update":"x","ghostList":[]} trailing"#).is_err());
    assert!(parse_catalog(r#"{"update":"\ud800","ghostList":[]}"#).is_err());
    assert!(
        parse_catalog(r#"{"update":"x","ghostList":[{"sakuraName":"s","directory":"d","keroName":"k"}]}"#)
            .is_err()
    );
}

#[test]
fn merge_tolerates_unreadable_inputs() {
    let good_a = r#"{"update":"2023-12-18T07:18:31.808Z","ghostList":[{"directory":"a_d","sakuraName":"a_s","keroName":"a_k"},{"directory":"b_d","sakuraName":"b_s","keroName":"b_k"}]}"#;
    let corrupt = r#"{"update":"2023-12-18T07:18:31.808Z","ghostList":["#;
    let good_b = r#"{"update":"2023-12-18T07:18:31.808Z","ghostList":[{"directory":"a_d","sakuraName":"a_s","keroName":"a_k"},{"directory":"c_d","sakuraName":"c_s","keroName":"c_k"}]}"#;

    let mut loads = Vec::new();
    for text in [good_a, corrupt, good_b] {
        loads.push(parse_catalog(text).ok());
    }
    assert!(loads[0].is_some() && loads[1].is_none() && loads[2].is_some());
    let result = merge_loaded(&loads, "2023-12-18T07:18:31.808Z".to_string());
    assert_eq!(
        result.ghost_list(),
        &vec![
            record("a_d", "a_s", "a_k"),
            record("b_d", "b_s", "b_k"),
            record("c_d", "c_s", "c_k"),
        ]
    );
}
