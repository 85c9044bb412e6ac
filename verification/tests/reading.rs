use pdf_signer::document::{load_document, stream_bytes};
use pdf_signer::object::{Dictionary, Object, Stream};
use pdf_signer::reading::is_readable;
use pdf_signer::testkit;
use pdf_signer::Error;

/// A file with the given objects, numbered from one on, and a cross-reference table.
fn file(objects: &[String]) -> Vec<u8> {
    let mut out = b"%PDF-1.5\n".to_vec();
    let mut rows = String::from("0000000000 65535 f \n");
    for (i, o) in objects.iter().enumerate() {
        rows.push_str(&format!("{:010} 00000 n \n", out.len()));
        out.extend_from_slice(format!("{} 0 obj\n{}\nendobj\n", i + 1, o).as_bytes());
    }
    let start = out.len();
    let n = objects.len() + 1;
    out.extend_from_slice(
        format!("xref\n0 {n}\n{rows}trailer\n<</Size {n}/Root 1 0 R>>\nstartxref\n{start}\n%%EOF\n").as_bytes(),
    );
    out
}

fn stream(entries: &str, content: &str) -> String {
    format!("<<{}/Length {}>>\nstream\n{}\nendstream", entries, content.len(), content)
}

/// A file with the given objects and a cross-reference stream with further entries, each
/// of four bytes, for the numbers behind those of the objects.
fn stream_file(objects: &[String], further: &[[u8; 4]], entries: &str) -> Vec<u8> {
    let mut out = b"%PDF-1.5\n".to_vec();
    let mut rows: Vec<u8> = vec![0, 0, 0, 0];
    for (i, o) in objects.iter().enumerate() {
        let at = out.len();
        rows.extend_from_slice(&[1, (at >> 8) as u8, at as u8, 0]);
        out.extend_from_slice(format!("{} 0 obj\n{}\nendobj\n", i + 1, o).as_bytes());
    }
    for e in further {
        rows.extend_from_slice(e);
    }
    let start = out.len();
    let n = rows.len() / 4;
    out.extend_from_slice(
        format!("{} 0 obj\n<</Type/XRef/W[1 2 1]/Size {}/Root 1 0 R{}/Length {}>>\nstream\n", n, n, entries, rows.len())
            .as_bytes(),
    );
    out.extend_from_slice(&rows);
    out.extend_from_slice(format!("\nendstream\nendobj\nstartxref\n{start}\n%%EOF\n").as_bytes());
    out
}

fn refused(pdf: &[u8]) {
    assert!(!is_readable(pdf));
    match load_document(pdf) {
        Err(Error::Pdf(t)) => assert_eq!(t, "document structure out of bounds"),
        _ => panic!("the file is to be refused"),
    }
}

fn content_of(pdf: &[u8], number: u32) -> Vec<u8> {
    let doc = load_document(pdf).unwrap();
    match doc.get_object((number, 0)).unwrap() {
        Object::Stream(s) => stream_bytes(s),
        o => panic!("no stream: {:?}", o),
    }
}

#[test]
fn sample_files_are_readable() {
    assert!(is_readable(&testkit::sample_pdf().unwrap()));
    assert!(is_readable(&testkit::sample_pdf_xref_stream()));
    assert!(is_readable(b"no file at all"));
}

#[test]
fn nesting_is_bounded() {
    let nested = |n: usize| {
        let catalog = "<</Type/Catalog>>".to_string();
        file(&[catalog, format!("{}1{}", "[".repeat(n), "]".repeat(n))])
    };
    assert!(load_document(&nested(64)).is_ok());
    refused(&nested(65));
    refused(&file(&[format!("{}", "<</A".repeat(70))]));
    // Brackets in strings and comments do not count for the object around them.
    let text = format!("[({}) %{}\n]", "[x".repeat(80), "[x".repeat(80));
    assert!(load_document(&file(&["<</Type/Catalog>>".to_string(), text])).is_ok());
}

#[test]
fn nesting_in_object_streams_is_bounded() {
    let with = |n: usize| {
        let packed = format!("2 0 {}1{}", "[".repeat(n), "]".repeat(n));
        let container = stream("/Type/ObjStm/N 1/First 4", &packed);
        stream_file(&["<</Type/Catalog>>".to_string(), "null".to_string(), container], &[], "")
    };
    assert!(load_document(&with(64)).is_ok());
    refused(&with(65));
}

#[test]
fn lengths_in_object_streams_are_followed() {
    let container = stream("/Type/ObjStm/N 1/First 4", "4 0 5");
    let text = "<</Length 4 0 R>>\nstream\nhello\nendstream".to_string();
    let objects = ["<</Type/Catalog>>".to_string(), text, container];
    let pdf = stream_file(&objects, &[[2, 0, 3, 0]], "");
    assert_eq!(content_of(&pdf, 2), b"hello");
    // The number is compressed in itself, or in the stream whose length it is.
    refused(&stream_file(&objects, &[[2, 0, 4, 0]], ""));
    refused(&stream_file(&objects, &[[2, 0, 2, 0]], ""));
}

#[test]
fn section_numbers_are_bounded() {
    let pdf = file(&["<</Type/Catalog>>".to_string()]);
    let text = String::from_utf8(pdf.clone()).unwrap();
    assert!(load_document(&pdf).is_ok());
    refused(text.replace("xref\n0 2\n", "xref\n18446744073709551615 2\n").as_bytes());
}

#[test]
fn cross_reference_streams_are_bounded() {
    let good = stream_file(&["<</Type/Catalog>>".to_string()], &[], "");
    assert!(load_document(&good).is_ok());
    refused(&stream_file(&["<</Type/Catalog>>".to_string()], &[], "/W[0 0 0]"));
    refused(&stream_file(&["<</Type/Catalog>>".to_string()], &[], "/W[1 9999999999 1]"));
    refused(&stream_file(&["<</Type/Catalog>>".to_string()], &[], "/Index[9223372036854775807 2]"));
    let overflow = "/Filter/FlateDecode/DecodeParms<</Predictor 12/Columns 4/Colors 9223372036854775807>>";
    refused(&stream_file(&["<</Type/Catalog>>".to_string()], &[], overflow));
}

#[test]
fn encrypted_files_have_no_packed_objects() {
    let objects = ["<</Type/Catalog>>".to_string(), stream("/Type/ObjStm/N 1/First 4", "3 0 5")];
    assert!(load_document(&stream_file(&objects, &[[2, 0, 2, 0]], "")).is_ok());
    refused(&stream_file(&objects, &[[2, 0, 2, 0]], "/Encrypt null"));
    assert!(is_readable(&stream_file(&objects, &[], "/Encrypt null")));
}

#[test]
fn filters_are_undone() {
    let encoded = |filter: Object, content: &[u8]| {
        let mut dict = Dictionary::new();
        dict.set("Filter", filter);
        stream_bytes(&Stream { dict, content: content.to_vec() })
    };
    let ascii = || Object::Name(b"ASCII85Decode".to_vec());
    assert_eq!(encoded(ascii(), b"s8W-!~>"), [0xff, 0xff, 0xff, 0xff]);
    assert_eq!(encoded(ascii(), b"9jqo^~>"), b"Man ");
    // A group beyond 32 bits leaves the content as it stands.
    assert_eq!(encoded(ascii(), b"s8W-\"~>"), b"s8W-\"~>");
    assert_eq!(encoded(ascii(), b"s8W-~>"), b"s8W-~>");
    assert_eq!(encoded(ascii(), b"uuuuu~>"), b"uuuuu~>");
    assert_eq!(encoded(Object::Array(vec![ascii(), ascii()]), b"9jqo^~>"), [0x8b, 0x47]);
    assert_eq!(encoded(Object::Array(vec![ascii(), Object::Null]), b"9jqo^~>"), b"9jqo^~>");
}

#[test]
fn rows_of_a_predictor_are_bounded() {
    let with = |colors: i64| {
        let mut parameters = Dictionary::new();
        parameters.set("Predictor", Object::Integer(12));
        parameters.set("Columns", Object::Integer(2));
        parameters.set("Colors", Object::Integer(colors));
        let mut dict = Dictionary::new();
        dict.set("Filter", Object::Name(b"LZWDecode".to_vec()));
        dict.set("DecodeParms", Object::Dictionary(parameters));
        // The bytes 0, 1, 2 in LZW.
        stream_bytes(&Stream { dict, content: vec![0x80, 0x00, 0x00, 0x20, 0x28, 0x08] })
    };
    assert_eq!(with(1), [1, 2]);
    assert_eq!(with(i64::MAX).len(), 6);
}
