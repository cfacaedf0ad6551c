use ghost_catalog::ast::{GhostData, GhostJson};
use ghost_catalog::config::EraseArgs;
use ghost_catalog::procedure::{
    append_body, build_body, dedup_records, erase_body, erase_filter_map, merge_body, unique_fold,
};

const TS: &str = "2023-12-18T07:18:31.808Z";

fn record(d: &str, s: &str, k: &str) -> GhostData {
    GhostData::new(d.to_string(), s.to_string(), k.to_string())
}

#[test]
fn pushing_when_unique() {
    let acc = vec!["a", "b"];
    let current = "c";
    let result = unique_fold(acc, &current);
    assert_eq!(result, vec!["a", "b", "c"]);
}

#[test]
fn not_pushing_when_not_unique() {
    let acc = vec!["a", "b"];
    let current = "b";
    let result = unique_fold(acc, &current);
    assert_eq!(result, vec!["a", "b"]);
}

#[test]
fn none_when_same_directory() {
    let v = record("d_valid", "s_valid", "k_valid");
    let directory = Some("d_valid".to_string());
    let sakura_name: Option<String> = None;
    let kero_name: Option<String> = None;
    let result = erase_filter_map(
        &v,
        directory.as_ref(),
        sakura_name.as_ref(),
        kero_name.as_ref(),
    );
    assert!(result.is_none());

    let sakura_name = Some("s_valid".to_string());
    let kero_name = Some("k_valid".to_string());
    let result = erase_filter_map(
        &v,
        directory.as_ref(),
        sakura_name.as_ref(),
        kero_name.as_ref(),
    );
    assert!(result.is_none());

    let sakura_name = Some("s_valid".to_string());
    let kero_name = Some("k_valid".to_string());
    let result = erase_filter_map(
        &v,
        directory.as_ref(),
        sakura_name.as_ref(),
        kero_name.as_ref(),
    );
    assert!(result.is_none());

    let sakura_name = Some("s_invalid".to_string());
    let kero_name = Some("k_invalid".to_string());
    let result = erase_filter_map(
        &v,
        directory.as_ref(),
        sakura_name.as_ref(),
        kero_name.as_ref(),
    );
    assert!(result.is_none());
}

#[test]
fn none_when_same_sakura_name() {
    let v = record("d_valid", "s_valid", "k_valid");
    let directory: Option<String> = None;
    let sakura_name = Some("s_valid".to_string());
    let kero_name: Option<String> = None;
    let result = erase_filter_map(
        &v,
        directory.as_ref(),
        sakura_name.as_ref(),
        kero_name.as_ref(),
    );
    assert!(result.is_none());

    let directory = Some("d_valid".to_string());
    let kero_name = Some("k_valid".to_string());
    let result = erase_filter_map(
        &v,
        directory.as_ref(),
        sakura_name.as_ref(),
        kero_name.as_ref(),
    );
    assert!(result.is_none());

    let directory = Some("d_invalid".to_string());
    let kero_name = Some("k_invalid".to_string());
    let result = erase_filter_map(
        &v,
        directory.as_ref(),
        sakura_name.as_ref(),
        kero_name.as_ref(),
    );
    assert!(result.is_none());
}

#[test]
fn none_when_same_kero_name() {
    let v = record("d_valid", "s_valid", "k_valid");
    let directory: Option<String> = None;
    let sakura_name: Option<String> = None;
    let kero_name = Some("k_valid".to_string());
    let result = erase_filter_map(
        &v,
        directory.as_ref(),
        sakura_name.as_ref(),
        kero_name.as_ref(),
    );
    assert!(result.is_none());

    let directory = Some("d_valid".to_string());
    let sakura_name = Some("s_valid".to_string());
    let result = erase_filter_map(
        &v,
        directory.as_ref(),
        sakura_name.as_ref(),
        kero_name.as_ref(),
    );
    assert!(result.is_none());

    let directory = Some("d_invalid".to_string());
    let sakura_name = Some("s_invalid".to_string());
    let result = erase_filter_map(
        &v,
        directory.as_ref(),
        sakura_name.as_ref(),
        kero_name.as_ref(),
    );
    assert!(result.is_none());
}

#[test]
fn some_value_when_all_different() {
    let v = record("d_valid", "s_valid", "k_valid");
    let directory = Some("d_invalid".to_string());
    let sakura_name = Some("s_invalid".to_string());
    let kero_name = Some("k_invalid".to_string());
    let result = erase_filter_map(
        &v,
        directory.as_ref(),
        sakura_name.as_ref(),
        kero_name.as_ref(),
    );
    assert_eq!(result, Some(&v));
}

#[test]
fn some_value_when_all_none() {
    let v = record("d_valid", "s_valid", "k_valid");
    let directory: Option<String> = None;
    let sakura_name: Option<String> = None;
    let kero_name: Option<String> = None;
    let result = erase_filter_map(
        &v,
        directory.as_ref(),
        sakura_name.as_ref(),
        kero_name.as_ref(),
    );
    assert_eq!(result, Some(&v));
}

fn four_records() -> Vec<GhostData> {
    vec![
        record("100th_year", "霊", ""),
        record("FoxTheory", "リサ", "book"),
        record("tanumki", "きつね", "たぬき"),
        record("tcidelam", "シデラム", ""),
    ]
}

#[test]
fn erase_when_specified_value() {
    let args = EraseArgs::new(String::new(), Some("100th_year".to_string()), None, None);
    let json = GhostJson::new(TS.to_string(), four_records());
    let result = erase_body(&args, &json, TS.to_string());
    assert_eq!(
        result.ghost_list(),
        &vec![
            record("FoxTheory", "リサ", "book"),
            record("tanumki", "きつね", "たぬき"),
            record("tcidelam", "シデラム", ""),
        ]
    );
}

#[test]
fn not_erase_when_no_specified_value() {
    let args = EraseArgs::new(String::new(), Some("d_invalid".to_string()), None, None);
    let json = GhostJson::new(TS.to_string(), four_records());
    let result = erase_body(&args, &json, TS.to_string());
    assert_eq!(result.ghost_list(), json.ghost_list());
}

#[test]
fn not_erase_when_nothing_value() {
    let args = EraseArgs::new(String::new(), None, None, None);
    let json = GhostJson::new(TS.to_string(), four_records());
    let result = erase_body(&args, &json, TS.to_string());
    assert_eq!(result.ghost_list(), json.ghost_list());
}

#[test]
fn append_checking_value_when_all_unique() {
    let json = GhostJson::new(TS.to_string(), vec![record("a_d", "a_s", "a_k")]);
    let appends = vec![record("b_d", "b_s", "b_k"), record("c_d", "c_s", "c_k")];
    let result = append_body(&json, &appends, TS.to_string());
    assert_eq!(
        result.ghost_list(),
        &vec![
            record("a_d", "a_s", "a_k"),
            record("b_d", "b_s", "b_k"),
            record("c_d", "c_s", "c_k"),
        ]
    );
}

#[test]
fn append_checking_value_when_not_unique() {
    let json = GhostJson::new(TS.to_string(), vec![record("a_d", "a_s", "a_k")]);
    let appends = vec![record("a_d", "a_s", "a_k"), record("a_d", "a_s", "a_k")];
    let result = append_body(&json, &appends, TS.to_string());
    assert_eq!(result.ghost_list(), &vec![record("a_d", "a_s", "a_k")]);
}

#[test]
fn merge_checking_value_when_all_unique() {
    let jsons = vec![
        GhostJson::new(TS.to_string(), vec![record("a_d", "a_s", "a_k")]),
        GhostJson::new(TS.to_string(), vec![record("b_d", "b_s", "b_k")]),
        GhostJson::new(TS.to_string(), vec![record("c_d", "c_s", "c_k")]),
    ];
    let result = merge_body(&jsons, TS.to_string());
    assert_eq!(
        result.ghost_list(),
        &vec![
            record("a_d", "a_s", "a_k"),
            record("b_d", "b_s", "b_k"),
            record("c_d", "c_s", "c_k"),
        ]
    );
}

#[test]
fn merge_checking_value_when_not_unique() {
    let jsons = vec![
        GhostJson::new(TS.to_string(), vec![record("a_d", "a_s", "a_k")]),
        GhostJson::new(TS.to_string(), vec![record("a_d", "a_s", "a_k")]),
        GhostJson::new(TS.to_string(), vec![record("a_d", "a_s", "a_k")]),
    ];
    let result = merge_body(&jsons, TS.to_string());
    assert_eq!(result.ghost_list(), &vec![record("a_d", "a_s", "a_k")]);
}

#[test]
fn dedup_keeps_first_occurrence_order() {
    let list = vec![
        record("b", "s1", ""),
        record("a", "s2", ""),
        record("b", "s1", ""),
        record("c", "s3", ""),
        record("a", "s2", ""),
    ];
    let result = dedup_records(&list);
    assert_eq!(
        result,
        vec![record("b", "s1", ""), record("a", "s2", ""), record("c", "s3", "")]
    );
}

#[test]
fn dedup_is_idempotent_on_values() {
    let list = vec![
        record("x", "1", ""),
        record("y", "2", ""),
        record("x", "1", ""),
    ];
    let once = dedup_records(&list);
    let twice = dedup_records(&once);
    assert_eq!(once, twice);
}

#[test]
fn build_records_depend_on_inputs_alone() {
    let collections = vec![
        vec![record("aaa", "さくらAAA", "ケロAAA")],
        vec![record("bbb", "さくらBBB", ""), record("aaa", "さくらAAA", "ケロAAA")],
    ];
    let first = build_body(&collections, "2001-01-01T00:00:00.000Z".to_string());
    let second = build_body(&collections, "2002-02-02T00:00:00.000Z".to_string());
    assert_eq!(first.ghost_list(), second.ghost_list());
    assert_eq!(
        first.ghost_list(),
        &vec![record("aaa", "さくらAAA", "ケロAAA"), record("bbb", "さくらBBB", "")]
    );
    assert_eq!(first.update(), "2001-01-01T00:00:00.000Z");
    assert_eq!(second.update(), "2002-02-02T00:00:00.000Z");
}

#[test]
fn append_is_monotonic_without_duplicates() {
    let json = GhostJson::new(TS.to_string(), vec![record("a", "1", ""), record("b", "2", "")]);
    let appends = vec![record("c", "3", ""), record("d", "4", "")];
    let result = append_body(&json, &appends, TS.to_string());
    assert_eq!(
        result.ghost_list().len(),
        json.ghost_list().len() + appends.len()
    );
}
