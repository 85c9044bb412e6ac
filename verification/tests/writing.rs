use pdf_signer::document::load_document;
use pdf_signer::incremental::{last_startxref, startxref_in_bounds, uses_xref_stream, Incremental};
use pdf_signer::object::{Dictionary, Object, Real, Stream, StringFormat};
use pdf_signer::testkit;
use pdf_signer::writer::{fmt_real, write_name, write_object};

fn written(o: &Object) -> Vec<u8> {
    let mut out = Vec::new();
    write_object(&mut out, o);
    out
}

fn real_of(v: f32) -> Real {
    Real { bits: v.to_bits(), text: format!("{}", v) }
}

fn real_text(v: f32) -> String {
    let mut out = Vec::new();
    fmt_real(&mut out, &real_of(v));
    String::from_utf8(out).unwrap()
}

#[test]
fn writes_plain_objects() {
    assert_eq!(written(&Object::Null), b"null".to_vec());
    assert_eq!(written(&Object::Boolean(true)), b"true".to_vec());
    assert_eq!(written(&Object::Boolean(false)), b"false".to_vec());
    assert_eq!(written(&Object::Integer(-7)), b"-7".to_vec());
    assert_eq!(written(&Object::Reference((12, 3))), b"12 3 R".to_vec());
}

#[test]
fn writes_reals_without_exponents() {
    assert_eq!(real_text(0.0), "0");
    assert_eq!(real_text(-0.0), "0");
    assert_eq!(real_text(1.5), "1.5");
    assert_eq!(real_text(612.0), "612");
    assert_eq!(real_text(-3.0), "-3");
    assert_eq!(real_text(16777216.0), "16777216");
    assert_eq!(real_text(1e20), "9223372036854775807");
    assert_eq!(real_text(-1e20), "-9223372036854775808");
    assert_eq!(real_text(0.1), "0.1");
}

#[test]
fn escapes_names() {
    let mut out = Vec::new();
    write_name(&mut out, b"A B#/\xff");
    assert_eq!(out, b"/A#20B#23#2F#FF".to_vec());
}

#[test]
fn escapes_strings() {
    let literal = Object::String(b"a(b)\\\n\r\xe9".to_vec(), StringFormat::Literal);
    assert_eq!(written(&literal), b"(a\\(b\\)\\\\\\n\\r\xe9)".to_vec());
    let hex = Object::String(vec![0x00, 0xff], StringFormat::Hexadecimal);
    assert_eq!(written(&hex), b"<00ff>".to_vec());
}

#[test]
fn writes_containers() {
    let a = Object::Array(vec![Object::Integer(1), Object::Name(b"X".to_vec()), Object::Array(vec![])]);
    assert_eq!(written(&a), b"[1 /X []]".to_vec());
    let mut d = Dictionary::new();
    d.set("K", Object::Integer(1));
    d.set("L", Object::Null);
    d.set("K", Object::Integer(2));
    assert_eq!(written(&Object::Dictionary(d)), b"<< /K 2 /L null >>".to_vec());
}

#[test]
fn streams_carry_their_length() {
    let mut dict = Dictionary::new();
    dict.set("Length", Object::Integer(99));
    dict.set("A", Object::Integer(1));
    let s = Object::Stream(Stream { dict, content: b"abc".to_vec() });
    assert_eq!(written(&s), b"<< /Length 3 /A 1 >>\nstream\nabc\nendstream".to_vec());
}

#[test]
fn reads_the_last_startxref() {
    assert_eq!(last_startxref(b"startxref\n12\nstartxref \r\n 345\n%%EOF"), Some(345));
    assert_eq!(last_startxref(b"startxref\nx"), None);
    assert_eq!(last_startxref(b"nothing"), None);
    assert_eq!(last_startxref(b"x"), None);
    assert!(!startxref_in_bounds(b"startxref\n345\n"));
    assert!(startxref_in_bounds(b"startxref\n3\n"));
}

#[test]
fn updates_a_file_with_a_table() {
    let base = b"%PDF-1.4\nxref\n0 0\ntrailer\n<< >>\nstartxref\n9\n%%EOF";
    let mut inc = Incremental::new(base);
    inc.add((7, 0), Object::Integer(7));
    inc.add((3, 1), Object::Integer(2));
    inc.add((4, 0), Object::Null);
    inc.add((3, 1), Object::Integer(3));
    assert!(!uses_xref_stream(base));
    let out = inc.render(8, (1, 0), 9, Some(Object::Array(vec![])));
    let mut expected = base.to_vec();
    expected.extend_from_slice(b"\n3 1 obj\n3\nendobj\n4 0 obj\nnull\nendobj\n7 0 obj\n7\nendobj\n");
    let at = expected.len();
    let off = base.len() + 1;
    expected.extend_from_slice(
        format!(
            "xref\n3 2\n{:010} 00001 n\r\n{:010} 00000 n\r\n7 1\n{:010} 00000 n\r\ntrailer\n<< /Size 8 /Root 1 0 R /Prev 9 /ID [] >>\nstartxref\n{}\n%%EOF\n",
            off,
            off + 17,
            off + 37,
            at
        )
        .as_bytes(),
    );
    assert_eq!(String::from_utf8(out.clone()).unwrap(), String::from_utf8(expected).unwrap());
    assert_eq!(last_startxref(&out), Some(at));
    assert!(!uses_xref_stream(&out));
}

#[test]
fn updates_a_file_with_a_stream() {
    let base = testkit::sample_pdf_xref_stream();
    assert!(uses_xref_stream(&base));
    let prev = last_startxref(&base).unwrap();
    let mut inc = Incremental::new(&base);
    inc.add((7, 0), Object::Integer(7));
    let out = inc.render(8, (1, 0), prev, None);
    assert_eq!(&out[..base.len()], &base[..]);
    assert!(uses_xref_stream(&out));
    let doc = load_document(&out).unwrap();
    assert!(matches!(doc.get_object((7, 0)), Ok(Object::Integer(7))));
    assert_eq!(doc.root_id().unwrap(), (1, 0));
    assert_eq!(doc.max_id, 8);
}

#[test]
fn samples_load() {
    for pdf in [testkit::sample_pdf().unwrap(), testkit::sample_pdf_xref_stream()] {
        let doc = load_document(&pdf).unwrap();
        assert_eq!(doc.pages.len(), 1);
        let page = doc.get_dict(doc.pages[0].1).unwrap();
        assert!(matches!(page.get("Type"), Some(Object::Name(n)) if n == b"Page"));
        assert!(matches!(page.get("MediaBox"), Some(Object::Array(a)) if a.len() == 4));
    }
}

#[test]
fn sample_text_is_in_its_content_stream() {
    let pdf = testkit::sample_pdf().unwrap();
    let doc = load_document(&pdf).unwrap();
    let page = doc.get_dict(doc.pages[0].1).unwrap();
    let content = match page.get("Contents") {
        Some(Object::Reference(id)) => doc.get_object(*id).unwrap(),
        other => panic!("{:?}", other),
    };
    match content {
        Object::Stream(s) => {
            let data = pdf_signer::document::stream_bytes(s);
            let text = String::from_utf8(data).unwrap();
            assert!(text.contains("(pdf_signer PoC - sample document) Tj"), "{}", text);
            assert!(text.contains("/F1 24 Tf"));
        }
        other => panic!("{:?}", other),
    }
}

#[test]
fn reading_the_wrong_kind_of_object_fails() {
    let doc = load_document(&testkit::sample_pdf_xref_stream()).unwrap();
    assert!(doc.get_dict((99, 0)).is_err());
    assert!(doc.get_array((1, 0)).is_err());
    assert!(doc.get_dict((1, 0)).is_ok());
}

#[test]
fn garbage_does_not_load() {
    assert!(load_document(b"no pdf").is_err());
}
