use ghost_catalog::ast::GhostData;
use ghost_catalog::extract::{extract_record, get_labeled_value_from_line, ExtractError};
use ghost_catalog::procedure::build_body;

fn record(d: &str, s: &str, k: &str) -> GhostData {
    GhostData::new(d.to_string(), s.to_string(), k.to_string())
}

#[test]
fn some_value_when_valid_str() {
    let line = "directory,taidanaSanoSan";
    let label = "directory,";
    let result = get_labeled_value_from_line(line, label);
    assert_eq!(result, Some("taidanaSanoSan".to_string()));
}

#[test]
fn none_when_invalid_str() {
    let line = "aaadirectory,bbb";
    let label = "directory,";
    assert!(get_labeled_value_from_line(line, label).is_none());
}

#[test]
fn labeled_line_is_trimmed_before_matching() {
    let result = get_labeled_value_from_line("  directory,abc  ", "directory,");
    assert_eq!(result, Some("abc".to_string()));
}

#[test]
fn extract_uses_install_txt_declaration() {
    let install = "charset,utf-8\r\ndirectory,aaa\r\n".as_bytes().to_vec();
    let descript = "charset,utf-8\r\nsakura.name,さくらAAA\r\nkero.name,ケロAAA\r\n"
        .as_bytes()
        .to_vec();
    let result = extract_record("ignored".to_string(), Some(install), Some(descript)).unwrap();
    assert_eq!(result, record("aaa", "さくらAAA", "ケロAAA"));
}

#[test]
fn extract_falls_back_to_path_component() {
    let descript = "charset,utf-8\r\nsakura.name,さくらBBB\r\n".as_bytes().to_vec();
    let result = extract_record("bbb".to_string(), None, Some(descript)).unwrap();
    assert_eq!(result, record("bbb", "さくらBBB", ""));
}

#[test]
fn extract_fails_on_install_without_declaration() {
    let install = "charset,utf-8\r\nnothing,here\r\n".as_bytes().to_vec();
    let descript = "charset,utf-8\r\nsakura.name,x\r\n".as_bytes().to_vec();
    let result = extract_record("ccc".to_string(), Some(install), Some(descript));
    assert_eq!(result, Err(ExtractError::InvalidDeclaration));
}

#[test]
fn extract_fails_without_descriptor() {
    let result = extract_record("ccc".to_string(), None, None);
    assert_eq!(result, Err(ExtractError::MissingDescriptor));
}

#[test]
fn extract_fails_without_sakura_name() {
    let descript = "charset,utf-8\r\nkero.name,only\r\n".as_bytes().to_vec();
    let result = extract_record("ccc".to_string(), None, Some(descript));
    assert_eq!(result, Err(ExtractError::InvalidDeclaration));
}

#[test]
fn extract_fails_on_undecodable_file() {
    let mut install = b"charset,utf-8\ndirectory,a".to_vec();
    install.push(0xFF);
    let descript = "charset,utf-8\r\nsakura.name,x\r\n".as_bytes().to_vec();
    let result = extract_record("ccc".to_string(), Some(install), Some(descript));
    assert_eq!(result, Err(ExtractError::Decode));
}

#[test]
fn first_matching_line_wins() {
    let descript = "charset,utf-8\nsakura.name,first\nsakura.name,second\n"
        .as_bytes()
        .to_vec();
    let result = extract_record("d".to_string(), None, Some(descript)).unwrap();
    assert_eq!(result, record("d", "first", ""));
}

#[test]
fn build_example_produces_ordered_records() {
    let aaa = extract_record(
        "aaa".to_string(),
        Some("directory,aaa\r\n".as_bytes().to_vec()),
        Some(
            "charset,utf-8\r\nsakura.name,さくらAAA\r\nkero.name,ケロAAA\r\n"
                .as_bytes()
                .to_vec(),
        ),
    )
    .unwrap();
    let bbb = extract_record(
        "bbb".to_string(),
        None,
        Some("charset,utf-8\r\nsakura.name,さくらBBB\r\n".as_bytes().to_vec()),
    )
    .unwrap();
    let ccc = extract_record(
        "ccc".to_string(),
        None,
        Some(
            "charset,utf-8\r\nsakura.name,さくらCCC\r\nkero.name,ケロCCC\r\n"
                .as_bytes()
                .to_vec(),
        ),
    )
    .unwrap();
    let result = build_body(
        &vec![vec![aaa, bbb, ccc]],
        "2023-12-18T07:18:31.808Z".to_string(),
    );
    assert_eq!(
        result.ghost_list(),
        &vec![
            record("aaa", "さくらAAA", "ケロAAA"),
            record("bbb", "さくらBBB", ""),
            record("ccc", "さくらCCC", "ケロCCC"),
        ]
    );
}
