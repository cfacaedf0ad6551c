use ghost_catalog::decode::decode_setting_text;

#[test]
fn utf8_declared_charset_decodes() {
    let bytes = "charset,utf-8\r\nsakura.name,テストsakura\r\n"
        .as_bytes()
        .to_vec();
    let result = decode_setting_text(&bytes).unwrap();
    assert!(result.contains("テストsakura"));
}

#[test]
fn charset_label_is_case_insensitive_and_value_trimmed() {
    let bytes = "CharSet, UTF-8 \r\nsakura.name,テストsakura\r\n"
        .as_bytes()
        .to_vec();
    let result = decode_setting_text(&bytes).unwrap();
    assert!(result.contains("テストsakura"));
}

#[test]
fn shift_jis_is_the_default() {
    // Shift-JIS bytes of the katakana テスト with no charset declaration.
    let mut bytes = b"sakura.name,".to_vec();
    bytes.extend_from_slice(&[0x83, 0x65, 0x83, 0x58, 0x83, 0x67]);
    let result = decode_setting_text(&bytes).unwrap();
    assert_eq!(result, "sakura.name,テスト");
}

#[test]
fn unrecognized_charset_falls_back_to_shift_jis() {
    let mut bytes = b"charset,whatever\nsakura.name,".to_vec();
    bytes.extend_from_slice(&[0x83, 0x65]);
    let result = decode_setting_text(&bytes).unwrap();
    assert_eq!(result, "charset,whatever\nsakura.name,テ");
}

#[test]
fn euc_jp_declared_charset_decodes() {
    let mut bytes = b"charset,euc-jp\nname,".to_vec();
    // EUC-JP bytes of the katakana テ.
    bytes.extend_from_slice(&[0xA5, 0xC6]);
    let result = decode_setting_text(&bytes).unwrap();
    assert_eq!(result, "charset,euc-jp\nname,テ");
}

#[test]
fn iso_2022_jp_declared_charset_decodes() {
    let mut bytes = b"charset,iso-2022-jp\nname,".to_vec();
    // ISO-2022-JP escape into JIS X 0208, the katakana テ, and back to ASCII.
    bytes.extend_from_slice(&[0x1B, 0x24, 0x42, 0x25, 0x46, 0x1B, 0x28, 0x42]);
    let result = decode_setting_text(&bytes).unwrap();
    assert_eq!(result, "charset,iso-2022-jp\nname,テ");
}

#[test]
fn malformed_bytes_for_declared_charset_fail() {
    let mut bytes = b"charset,utf-8\nname,".to_vec();
    bytes.push(0xFF);
    assert!(decode_setting_text(&bytes).is_err());
}

#[test]
fn first_charset_declaration_wins() {
    let mut bytes = b"charset,utf-8\ncharset,euc-jp\nname,".to_vec();
    bytes.extend_from_slice("テ".as_bytes());
    let result = decode_setting_text(&bytes).unwrap();
    assert_eq!(result, "charset,utf-8\ncharset,euc-jp\nname,テ");
}
