use elu_etl::etl::script::ast::GenKind;
use elu_etl::etl::script::gen::{generate, new_ulid, ulid_from, Entropy, GenContext};
use elu_etl::models::calendar::{Day, Stamp};
use elu_etl::models::value::CellValue;

fn text(c: CellValue) -> String {
    match c {
        CellValue::Text(s) => s,
        other => panic!("expected a text, got {other:?}"),
    }
}

fn gen(kind: GenKind, row: &Vec<CellValue>, ctx: &GenContext) -> CellValue {
    generate(kind, row, ctx, &mut Entropy::new())
}

#[test]
fn guid_and_ulid_are_unique_per_call() {
    let ctx = GenContext::new();
    let row = vec![];
    let g1 = text(gen(GenKind::Guid, &row, &ctx));
    let g2 = text(gen(GenKind::Guid, &row, &ctx));
    assert_ne!(g1, g2);
    assert_eq!(g1.len(), 36);

    let u1 = text(gen(GenKind::Ulid, &row, &ctx));
    let u2 = text(gen(GenKind::Ulid, &row, &ctx));
    assert_ne!(u1, u2);
    assert_eq!(u1.len(), 26);
    assert!(u1.bytes().all(|b| b"0123456789ABCDEFGHJKMNPQRSTVWXYZ".contains(&b)));
}

#[test]
fn ulid_orders_by_timestamp() {
    let a = new_ulid(1_000, &mut Entropy::new());
    let b = new_ulid(2_000, &mut Entropy::new());
    assert!(a < b);
}

#[test]
fn datetime_kinds_use_context_snapshot() {
    let ctx = GenContext::new();
    let row = vec![];
    let d1 = gen(GenKind::DateTimeText, &row, &ctx);
    let d2 = gen(GenKind::DateTimeText, &row, &ctx);
    assert_eq!(d1, d2);
    let off = text(gen(GenKind::DateTimeOffset, &row, &ctx));
    assert!(off.contains('T') && (off.contains('+') || off.contains('-')));
}

#[test]
fn hashes_are_deterministic_and_row_sensitive() {
    let ctx = GenContext::new();
    let row_a = vec![CellValue::Text("alice".to_string()), CellValue::Int(1)];
    let row_b = vec![CellValue::Text("bob".to_string()), CellValue::Int(2)];
    let h1 = gen(GenKind::Sha256, &row_a, &ctx);
    let h2 = gen(GenKind::Sha256, &row_a, &ctx);
    let h3 = gen(GenKind::Sha256, &row_b, &ctx);
    assert_eq!(h1, h2);
    assert_ne!(h1, h3);
    assert_eq!(text(h1).len(), 64);
    assert_eq!(text(gen(GenKind::Sha512, &row_a, &ctx)).len(), 128);
    assert_eq!(text(gen(GenKind::Md5, &row_a, &ctx)).len(), 32);
}

#[test]
fn digests_of_known_texts() {
    let ctx = GenContext::new();
    let row = vec![CellValue::Text("abc".to_string())];
    assert_eq!(
        text(gen(GenKind::Sha256, &row, &ctx)),
        "ba7816bf8f01cfea414140de5dae2223b00361a396177a9cb410ff61f20015ad"
    );
    assert_eq!(text(gen(GenKind::Md5, &row, &ctx)), "900150983cd24fb0d6963f7d28e17f72");
    assert!(text(gen(GenKind::Sha512, &row, &ctx)).starts_with("ddaf35a193617abacc417349ae204131"));
}

#[test]
fn dates_and_times_are_those_of_the_start() {
    let local = Stamp::new(Day::new(2026, 6, 12).unwrap(), 8, 9, 10, 0).unwrap();
    let ctx = GenContext::at(0, local, "2026-06-12T08:09:10.000+08:00".to_string());
    let row = vec![];
    assert_eq!(gen(GenKind::Date, &row, &ctx), CellValue::Date(Day::new(2026, 6, 12).unwrap()));
    assert_eq!(text(gen(GenKind::DateText, &row, &ctx)), "2026-06-12");
    assert_eq!(text(gen(GenKind::DateTimeText, &row, &ctx)), "2026-06-12 08:09:10");
    assert_eq!(
        text(gen(GenKind::DateTimeOffsetText, &row, &ctx)),
        "2026-06-12T08:09:10.000+08:00"
    );
}

#[test]
fn ulid_of_known_numbers() {
    assert_eq!(ulid_from(0, 0), "00000000000000000000000000");
    assert_eq!(ulid_from(1, 0), "00000000010000000000000000");
    assert_eq!(ulid_from(32, u128::MAX), "0000000010ZZZZZZZZZZZZZZZZ");
}

#[test]
fn generator_names() {
    assert_eq!(GenKind::parse("guid", true), Some(GenKind::GuidText));
    assert_eq!(GenKind::parse("ULID", false), Some(GenKind::Ulid));
    assert_eq!(GenKind::parse("ulid", true), None);
    assert_eq!(GenKind::GuidText.label(), "GUID(Text)");
}

#[test]
fn guids_are_random_uuids() {
    let ctx = GenContext::new();
    let g = text(gen(GenKind::Guid, &vec![], &ctx));
    assert_eq!(g.as_bytes()[14], b'4');
    assert!(b"89ab".contains(&g.as_bytes()[19]));
}

#[test]
fn the_start_is_one_time_in_three_forms() {
    let ctx = GenContext::new();
    let row = vec![];
    let shown = text(gen(GenKind::DateTimeOffset, &row, &ctx));
    let local = text(gen(GenKind::DateTimeText, &row, &ctx));
    assert_eq!(shown[..19].replace('T', " "), local);
    assert_eq!(&shown[19..20], ".");
    assert_eq!(shown.len(), 29);
    let ulid = text(gen(GenKind::Ulid, &row, &ctx));
    let digits = b"0123456789ABCDEFGHJKMNPQRSTVWXYZ";
    let mut millis: i64 = 0;
    for b in &ulid.as_bytes()[..10] {
        millis = millis * 32 + digits.iter().position(|d| d == b).unwrap() as i64;
    }
    let read = chrono::DateTime::parse_from_rfc3339(&shown).unwrap();
    assert_eq!(read.timestamp_millis(), millis);
}
