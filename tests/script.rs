use dgt_parser::script::{push_decimal, push_quoted, ScriptWriter, SCRIPT_HEADER};
use dgt_parser::tmx::{Prop, TranslationUnit, Tuv};
use dgt_parser::writer::WriterError;

fn unit(doc: &str, segs: &[(&str, &str)]) -> TranslationUnit {
    TranslationUnit {
        props: vec![Prop { key: "Txt::Doc. No.".to_string(), value: doc.to_string() }],
        segments: segs
            .iter()
            .map(|(l, c)| Tuv { lang: l.to_string(), content: c.to_string() })
            .collect(),
    }
}

#[test]
fn quotes_are_doubled() {
    let mut out = String::new();
    push_quoted(&mut out, "It's 'x'");
    assert_eq!(out, "'It''s ''x'''");
    let mut empty = String::new();
    push_quoted(&mut empty, "");
    assert_eq!(empty, "''");
}

#[test]
fn numbers_are_written_in_decimal() {
    let mut out = String::new();
    push_decimal(&mut out, 0);
    out.push(' ');
    push_decimal(&mut out, 4_294_967_295);
    out.push(' ');
    push_decimal(&mut out, 1050);
    assert_eq!(out, "0 4294967295 1050");
}

#[test]
fn full_batch_is_rendered_as_one_insert() {
    let mut w = ScriptWriter::with_batch_size(2);
    let mut out = String::new();
    w.handle(unit("A", &[("EN-GB", "Hi")]), 0, &mut out).ok().unwrap();
    assert_eq!(out, "");
    w.handle(unit("A", &[("EN-GB", "It's"), ("PL-01", "Cześć")]), 1, &mut out).ok().unwrap();
    assert_eq!(
        out,
        "ALTER TABLE translation_units ADD COLUMN en_gb TEXT;\n\
         ALTER TABLE translation_units ADD COLUMN pl_01 TEXT;\n\
         INSERT INTO translation_units (sequential_number, document_id, en_gb, pl_01) VALUES\n\
         (0, 'A','Hi',NULL),\n\
         (1, 'A','It''s','Cześć');\n"
    );
    let mut more = String::new();
    w.handle(unit("B'1", &[("PL-01", "x"), ("pl-01", "y")]), 0, &mut more).ok().unwrap();
    w.flush(&mut more);
    assert_eq!(
        more,
        "INSERT INTO translation_units (sequential_number, document_id, pl_01) VALUES\n(0, 'B''1','x');\n"
    );
    let mut nothing = String::new();
    w.flush(&mut nothing);
    assert_eq!(nothing, "");
}

#[test]
fn script_rejects_unnamed_and_invalid_units() {
    let mut w = ScriptWriter::new();
    let mut out = String::new();
    let unnamed = TranslationUnit { props: Vec::new(), segments: Vec::new() };
    assert!(matches!(w.handle(unnamed, 0, &mut out), Err(WriterError::MissingDocumentIdentity)));
    assert!(matches!(
        w.handle(unit("A", &[("english", "x")]), 0, &mut out),
        Err(WriterError::InvalidLanguageCode(_))
    ));
    w.flush(&mut out);
    assert_eq!(out, "");
    assert!(SCRIPT_HEADER.starts_with("CREATE TABLE translation_units"));
}
