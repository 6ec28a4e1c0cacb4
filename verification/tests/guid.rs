use pnet_datalink::guid::{find_char, is_guid_text_str, parse_adapter_guid};

#[test]
fn adapter_guid_read_from_device_name() {
    let name = "\\DEVICE\\{4D36E972-E325-11CE-BFC1-08002BE10318}";
    assert_eq!(parse_adapter_guid(name), Some(0x4D36E972_E325_11CE_BFC1_08002BE10318u128));
}

#[test]
fn adapter_guid_accepts_lower_case_digits() {
    let name = "\\DEVICE\\{0a1b2c3d-4e5f-6789-abcd-ef0123456789}";
    assert_eq!(parse_adapter_guid(name), Some(0x0A1B2C3D_4E5F_6789_ABCD_EF0123456789u128));
}

#[test]
fn adapter_guid_ignores_text_after_closing_brace() {
    let name = "{00000000-0000-0000-0000-000000000001}tail{x}";
    assert_eq!(parse_adapter_guid(name), Some(1));
}

#[test]
fn adapter_guid_absent_without_braces() {
    assert_eq!(parse_adapter_guid("\\DEVICE\\NDISWANIP"), None);
    assert_eq!(parse_adapter_guid(""), None);
}

#[test]
fn adapter_guid_absent_without_closing_brace() {
    assert_eq!(parse_adapter_guid("\\DEVICE\\{4D36E972-E325-11CE-BFC1-08002BE10318"), None);
}

#[test]
fn adapter_guid_absent_when_closing_brace_comes_first() {
    assert_eq!(parse_adapter_guid("}4D36E972-E325-11CE-BFC1-08002BE10318{"), None);
    assert_eq!(parse_adapter_guid("}{4D36E972-E325-11CE-BFC1-08002BE10318}"), None);
}

#[test]
fn adapter_guid_absent_for_malformed_text() {
    // too short
    assert_eq!(parse_adapter_guid("{4D36E972-E325-11CE-BFC1-08002BE1031}"), None);
    // dash in the wrong place
    assert_eq!(parse_adapter_guid("{4D36E97-2E325-11CE-BFC1-08002BE10318}"), None);
    // a letter that is no hex digit
    assert_eq!(parse_adapter_guid("{4D36E972-E325-11CE-BFC1-08002BE1031G}"), None);
    // an opening brace inside
    assert_eq!(parse_adapter_guid("{{4D36E972-E325-11CE-BFC1-08002BE10318}"), None);
    // a non-ASCII character
    assert_eq!(parse_adapter_guid("{4D36E972-E325-11CE-BFC1-08002BE1031\u{e9}}"), None);
    // empty braces
    assert_eq!(parse_adapter_guid("{}"), None);
}

#[test]
fn find_char_gives_first_position_in_characters() {
    assert_eq!(find_char("a{b{c", '{'), Some(1));
    assert_eq!(find_char("\u{e9}{", '{'), Some(1));
    assert_eq!(find_char("abc", '{'), None);
}

#[test]
fn guid_text_must_be_canonical() {
    assert!(is_guid_text_str("4D36E972-E325-11CE-BFC1-08002BE10318"));
    assert!(!is_guid_text_str("4D36E972E32511CEBFC108002BE10318"));
    assert!(!is_guid_text_str("4D36E972-E325-11CE-BFC1-08002BE10318-"));
    assert!(!is_guid_text_str("4D36E972-E325-11CE-BFC1+08002BE10318"));
}
