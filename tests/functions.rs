use dgt_parser::cli::requested_langs;
use dgt_parser::functions::{count_tmx_files, is_tmx_name, parse_utf16_string, DecodeError};
use dgt_parser::lang::{check_column, coerce_lang_code, coerce_lang_codes, lang_code_to_db_column, normalize_lang_code};
use dgt_parser::writer::WriterError;
use dgt_parser::sql::{add_column_statement, insert_statement, repeat_vars};
use dgt_parser::types::RequestedLangs;
use dgt_parser::writer::RowInsert;

#[test]
fn coercion_leaves_unrecognized_string_intact() {
    assert_eq!(coerce_lang_code(&"en".to_string()), "EN-GB".to_string());
    assert_eq!(coerce_lang_code(&"Hello".to_string()), "Hello".to_string());
}

#[test]
fn coercion_ignores_case_and_covers_the_table() {
    assert_eq!(coerce_lang_code(&"PL".to_string()), "PL-01");
    assert_eq!(coerce_lang_code(&"Ga".to_string()), "GA-IE");
    assert_eq!(coerce_lang_code(&"EN-GB".to_string()), "EN-GB");
    assert_eq!(
        coerce_lang_codes(vec!["de".to_string(), "xx".to_string(), "sv".to_string()]),
        vec!["DE-DE".to_string(), "xx".to_string(), "SV-SE".to_string()]
    );
}

#[test]
fn normalization_lowercases_and_folds_separator() {
    assert_eq!(normalize_lang_code("EN-GB"), "en_gb");
    assert_eq!(normalize_lang_code("PL-01"), "pl_01");
    assert_eq!(normalize_lang_code(""), "");
}

#[test]
fn normalization_is_idempotent() {
    for code in ["EN-GB", "pl_01", "Xx-Yy-Zz", "ü-B"] {
        let once = normalize_lang_code(code);
        assert_eq!(normalize_lang_code(&once), once);
    }
}

#[test]
fn column_pattern_accepts_only_two_two_codes() {
    assert_eq!(check_column("en_gb").unwrap(), true);
    assert_eq!(check_column("pl_01").unwrap(), true);
    assert_eq!(check_column("english").unwrap(), false);
    assert_eq!(check_column("en").unwrap(), false);
    assert_eq!(check_column("en_gb; drop").unwrap(), false);
}

#[test]
fn utf16_with_byte_order_mark_decodes() {
    let bytes = vec![0xFF, 0xFE, b'h', 0, b'i', 0];
    assert_eq!(parse_utf16_string(bytes).unwrap(), "hi");
    let plain = vec![b'o', 0, b'k', 0];
    assert_eq!(parse_utf16_string(plain).unwrap(), "ok");
}

#[test]
fn malformed_utf16_is_an_error() {
    let lone_surrogate = vec![0x00, 0xD8, b'a', 0];
    assert_eq!(parse_utf16_string(lone_surrogate), Err(DecodeError));
    let odd = vec![b'a', 0, b'b'];
    assert_eq!(parse_utf16_string(odd), Err(DecodeError));
}

#[test]
fn tmx_names_are_counted() {
    assert!(is_tmx_name("Vol_2019_1/22019D0557.tmx"));
    assert!(!is_tmx_name("readme.txt"));
    assert!(!is_tmx_name("tmx"));
    let names = vec![
        "a.tmx".to_string(),
        "b.TMX".to_string(),
        "c.tmx".to_string(),
        ".tmx".to_string(),
        "d.xml".to_string(),
    ];
    assert_eq!(count_tmx_files(&names), 3);
    assert_eq!(count_tmx_files(&Vec::new()), 0);
}

#[test]
fn placeholders_are_comma_separated() {
    assert_eq!(repeat_vars(1), "?");
    assert_eq!(repeat_vars(2), "?,?");
    assert_eq!(repeat_vars(3), "?,?,?");
}

#[test]
fn statements_name_their_columns() {
    assert_eq!(
        add_column_statement(&"en_gb".to_string()),
        "ALTER TABLE translation_units ADD COLUMN en_gb"
    );
    let row = RowInsert {
        sequential_number: 4,
        document_id: 2,
        cells: vec![
            ("en_gb".to_string(), "Hello".to_string()),
            ("pl_01".to_string(), "Cześć".to_string()),
        ],
    };
    assert_eq!(
        insert_statement(&row),
        "INSERT INTO translation_units (en_gb,pl_01,sequential_number,document_id) VALUES (?,?,?,?);"
    );
    let bare = RowInsert { sequential_number: 0, document_id: 1, cells: Vec::new() };
    assert_eq!(
        insert_statement(&bare),
        "INSERT INTO translation_units (sequential_number,document_id) VALUES (?,?);"
    );
}

#[test]
fn command_line_languages_become_a_filter() {
    assert!(matches!(requested_langs(None, false), RequestedLangs::Unlimited));
    match requested_langs(Some(vec!["en".to_string(), "pl".to_string()]), true) {
        RequestedLangs::Each(v) => assert_eq!(v, vec!["EN-GB".to_string(), "PL-01".to_string()]),
        _ => panic!("expected each"),
    }
    match requested_langs(Some(vec!["fr".to_string()]), false) {
        RequestedLangs::Any(v) => assert_eq!(v, vec!["FR-FR".to_string()]),
        _ => panic!("expected any"),
    }
}

#[test]
fn language_codes_become_valid_columns_or_errors() {
    assert_eq!(lang_code_to_db_column("EN-GB").ok().unwrap(), "en_gb");
    assert_eq!(lang_code_to_db_column("PL-01").ok().unwrap(), "pl_01");
    let again = lang_code_to_db_column("en_gb").ok().unwrap();
    assert_eq!(again, "en_gb");
    for bad in ["", "ENG", "EN-GB-X"] {
        match lang_code_to_db_column(bad) {
            Err(WriterError::InvalidLanguageCode(c)) => assert_eq!(c, normalize_lang_code(bad)),
            _ => panic!("expected an invalid language code for {:?}", bad),
        }
    }
}
