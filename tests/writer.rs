use dgt_parser::tmx::{Prop, TranslationUnit, Tuv};
use dgt_parser::types::RequestedLangs;
use dgt_parser::writer::{RowInsert, StoreOp, Writer, WriterError};

fn prop(key: &str, value: &str) -> Prop {
    Prop { key: key.to_string(), value: value.to_string() }
}

fn seg(lang: &str, content: &str) -> Tuv {
    Tuv { lang: lang.to_string(), content: content.to_string() }
}

fn unit(doc: &str, segments: Vec<Tuv>) -> TranslationUnit {
    TranslationUnit { props: vec![prop("Txt::Doc. No.", doc)], segments }
}

fn committed(ops: &[StoreOp]) -> Vec<&RowInsert> {
    let mut rows = Vec::new();
    for op in ops {
        if let StoreOp::Commit(batch) = op {
            rows.extend(batch.iter());
        }
    }
    rows
}

fn documents(ops: &[StoreOp]) -> Vec<(u64, String)> {
    ops.iter()
        .filter_map(|op| match op {
            StoreOp::InsertDocument { id, name } => Some((*id, name.clone())),
            _ => None,
        })
        .collect()
}

fn columns(ops: &[StoreOp]) -> Vec<String> {
    ops.iter()
        .filter_map(|op| match op {
            StoreOp::AddColumn(c) => Some(c.clone()),
            _ => None,
        })
        .collect()
}

fn cell<'a>(row: &'a RowInsert, column: &str) -> Option<&'a String> {
    row.cells.iter().find(|(c, _)| c == column).map(|(_, t)| t)
}

const SIZES: [(&str, usize); 7] = [
    ("22019D0557", 20),
    ("22019D0558", 22),
    ("22019D0559", 21),
    ("22019D0391", 25),
    ("22019D0437", 143),
    ("22019D0438", 212),
    ("22019D0556", 19),
];

/// Seven documents; in the one of 22 units no unit has a Polish text.
fn corpus() -> Vec<Vec<TranslationUnit>> {
    SIZES
        .iter()
        .map(|(name, size)| {
            (0..*size)
                .map(|i| {
                    let mut segs = vec![seg("EN-GB", &format!("{} sentence {}", name, i))];
                    if *name != "22019D0558" {
                        segs.push(seg("PL-01", &format!("{} zdanie {}", name, i)));
                    }
                    segs.push(seg("DE-DE", &format!("{} Satz {}", name, i)));
                    unit(name, segs)
                })
                .collect()
        })
        .collect()
}

fn run(langs: RequestedLangs, batch: usize) -> Vec<StoreOp> {
    let mut writer = Writer::with_batch_size(langs, batch);
    let mut ops = Vec::new();
    for doc in corpus() {
        writer.ingest_document(&doc, &mut ops).ok().unwrap();
    }
    writer.flush(&mut ops);
    ops
}

#[test]
fn unrestricted_corpus_gives_one_row_per_unit() {
    let ops = run(RequestedLangs::Unlimited, 20_000);
    let rows = committed(&ops);
    assert_eq!(rows.len(), 462);
    let docs = documents(&ops);
    assert_eq!(docs.len(), 7);
    for (name, size) in SIZES {
        let id = docs.iter().find(|(_, n)| n == name).unwrap().0;
        let of_doc: Vec<_> = rows.iter().filter(|r| r.document_id == id).collect();
        assert_eq!(of_doc.len(), size);
        for (i, r) in of_doc.iter().enumerate() {
            assert_eq!(r.sequential_number as usize, i);
        }
    }
    assert_eq!(columns(&ops), vec!["en_gb", "pl_01", "de_de"]);
}

#[test]
fn each_of_en_and_pl_keeps_units_with_both() {
    let langs = RequestedLangs::Each(vec!["EN-GB".to_string(), "PL-01".to_string()]);
    let ops = run(langs, 20_000);
    let rows = committed(&ops);
    assert_eq!(rows.len(), 440);
    assert_eq!(rows.iter().filter(|r| cell(r, "en_gb").is_some()).count(), 440);
    assert_eq!(rows.iter().filter(|r| cell(r, "pl_01").is_some()).count(), 440);
    assert!(rows.iter().all(|r| cell(r, "de_de").is_none()));
    assert_eq!(documents(&ops).len(), 6);
}

#[test]
fn any_of_keeps_units_with_one_of_the_languages() {
    let langs = RequestedLangs::Any(vec!["PL-01".to_string()]);
    let ops = run(langs, 20_000);
    assert_eq!(committed(&ops).len(), 440);
    let langs = RequestedLangs::Any(vec!["PL-01".to_string(), "EN-GB".to_string()]);
    assert_eq!(committed(&run(langs, 20_000)).len(), 462);
}

#[test]
fn batch_size_does_not_change_the_rows() {
    let whole = run(RequestedLangs::Unlimited, 20_000);
    for batch in [1, 3, 100, 462, 463] {
        let ops = run(RequestedLangs::Unlimited, batch);
        let a: Vec<(u32, u64)> = committed(&ops).iter().map(|r| (r.sequential_number, r.document_id)).collect();
        let b: Vec<(u32, u64)> = committed(&whole).iter().map(|r| (r.sequential_number, r.document_id)).collect();
        assert_eq!(a, b);
        let commits = ops.iter().filter(|op| matches!(op, StoreOp::Commit(_))).count();
        assert_eq!(commits, (462 + batch - 1) / batch);
    }
}

#[test]
fn text_is_stored_unchanged() {
    let mut writer = Writer::new(RequestedLangs::Unlimited);
    let mut ops = Vec::new();
    let text = "It's “quoted”, naïve; 'x' \\ \u{1F600}";
    writer.handle(&unit("D1", vec![seg("EN-GB", text)]), 0, &mut ops).ok().unwrap();
    writer.flush(&mut ops);
    let rows = committed(&ops);
    assert_eq!(cell(rows[0], "en_gb").unwrap(), text);
}

#[test]
fn first_segment_per_language_wins() {
    let mut writer = Writer::new(RequestedLangs::Unlimited);
    let mut ops = Vec::new();
    let tu = unit("D1", vec![seg("EN-GB", "first"), seg("en-gb", "second"), seg("PL-01", "pl")]);
    writer.handle(&tu, 0, &mut ops).ok().unwrap();
    writer.flush(&mut ops);
    let rows = committed(&ops);
    assert_eq!(
        rows[0].cells,
        vec![("en_gb".to_string(), "first".to_string()), ("pl_01".to_string(), "pl".to_string())]
    );
}

#[test]
fn first_document_property_names_the_document() {
    let tu = TranslationUnit {
        props: vec![prop("Txt::Other", "x"), prop("Txt::Doc. No.", "A"), prop("Txt::Doc. No.", "B")],
        segments: Vec::new(),
    };
    assert_eq!(tu.doc_name(), Some(&"A".to_string()));
    let none = TranslationUnit { props: vec![prop("Txt::Other", "x")], segments: Vec::new() };
    assert_eq!(none.doc_name(), None);
}

#[test]
fn empty_language_sets() {
    let tu = unit("D", vec![seg("EN-GB", "a")]);
    assert!(tu.contains_each_lang(&RequestedLangs::Each(Vec::new())));
    assert!(!tu.contains_any_lang(&RequestedLangs::Any(Vec::new())));
    assert!(tu.contains_each_lang(&RequestedLangs::Unlimited));
    assert!(tu.contains_any_lang(&RequestedLangs::Unlimited));
    let langs = RequestedLangs::Each(vec!["EN-GB".to_string(), "PL-01".to_string()]);
    assert!(!tu.contains_each_lang(&langs));
    assert!(tu.contains_any_lang(&langs));
    assert!(!RequestedLangs::Each(vec!["PL-01".to_string()]).includes(&tu));
    assert!(RequestedLangs::Any(Vec::new()).includes(&tu) == false);
}

#[test]
fn unnamed_unit_is_rejected() {
    let mut writer = Writer::new(RequestedLangs::Unlimited);
    let mut ops = Vec::new();
    let tu = TranslationUnit { props: Vec::new(), segments: vec![seg("EN-GB", "a")] };
    assert!(matches!(writer.ingest_document(&vec![tu], &mut ops), Err(WriterError::MissingDocumentIdentity)));
    assert!(ops.is_empty());
    let tu = TranslationUnit { props: Vec::new(), segments: vec![seg("EN-GB", "a")] };
    let doc = vec![unit("D", vec![seg("EN-GB", "a")]), tu];
    assert!(matches!(writer.ingest_document(&doc, &mut ops), Err(WriterError::MissingDocumentIdentity)));
    let langs = RequestedLangs::Each(vec!["PL-01".to_string()]);
    let mut filtered = Writer::new(langs);
    let skipped = TranslationUnit { props: Vec::new(), segments: vec![seg("EN-GB", "a")] };
    assert!(filtered.ingest_document(&vec![skipped], &mut ops).is_ok());
}

#[test]
fn invalid_language_code_is_rejected_before_any_change() {
    let mut writer = Writer::new(RequestedLangs::Unlimited);
    let mut ops = Vec::new();
    let tu = unit("D", vec![seg("EN-GB", "a"), seg("english", "b")]);
    match writer.handle(&tu, 0, &mut ops) {
        Err(WriterError::InvalidLanguageCode(c)) => assert_eq!(c, "english"),
        _ => panic!("expected an invalid language code"),
    }
    assert!(ops.is_empty());
    let empty_lang = unit("D", vec![seg("", "b")]);
    assert!(matches!(writer.handle(&empty_lang, 0, &mut ops), Err(WriterError::InvalidLanguageCode(_))));
}

#[test]
fn repeated_document_keeps_its_id() {
    let mut writer = Writer::with_batch_size(RequestedLangs::Unlimited, 1);
    let mut ops = Vec::new();
    writer.handle(&unit("A", vec![]), 0, &mut ops).ok().unwrap();
    writer.handle(&unit("B", vec![]), 0, &mut ops).ok().unwrap();
    writer.handle(&unit("A", vec![]), 1, &mut ops).ok().unwrap();
    assert_eq!(documents(&ops), vec![(1, "A".to_string()), (2, "B".to_string())]);
    let ids: Vec<u64> = committed(&ops).iter().map(|r| r.document_id).collect();
    assert_eq!(ids, vec![1, 2, 1]);
    let before = ops.len();
    writer.flush(&mut ops);
    writer.flush(&mut ops);
    assert_eq!(ops.len(), before);
}

#[test]
fn ops_come_in_dependency_order() {
    let mut writer = Writer::with_batch_size(RequestedLangs::Unlimited, 2);
    let mut ops = Vec::new();
    writer.handle(&unit("A", vec![seg("EN-GB", "x")]), 0, &mut ops).ok().unwrap();
    writer.handle(&unit("A", vec![seg("FR-FR", "y")]), 1, &mut ops).ok().unwrap();
    assert!(matches!(&ops[0], StoreOp::InsertDocument { id: 1, .. }));
    assert!(matches!(&ops[1], StoreOp::AddColumn(c) if c == "en_gb"));
    assert!(matches!(&ops[2], StoreOp::AddColumn(c) if c == "fr_fr"));
    assert!(matches!(&ops[3], StoreOp::Commit(b) if b.len() == 2));
    assert_eq!(ops.len(), 4);
}
