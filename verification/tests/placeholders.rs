use pdf_signer::document::load_document;
use pdf_signer::locate::{
    collect_signatures, collect_signatures_by_scan, parse_byte_range, scan_contents, subfilter_before,
};
use pdf_signer::object::Object;
use pdf_signer::placeholder::{bytes_outside, fill_contents, locate_contents_placeholder, patch_byte_range};
use pdf_signer::testkit;
use pdf_signer::update::{build_doctimestamp_update, build_incremental_update, build_sig_dict};
use pdf_signer::verify::{cms_from_contents, gap_is_contents};
use pdf_signer::writer::write_object;
use pdf_signer::{Error, SignOptions};

const FILE: &[u8] = b"...<< /ByteRange [0 9999999999 9999999999 9999999999] /Contents <00000000> >>...";

#[test]
fn locates_the_contents() {
    assert_eq!(locate_contents_placeholder(FILE, 4, 0).unwrap(), (64, 73));
    assert_eq!(FILE[64], b'<');
    assert_eq!(FILE[73], b'>');
    let e = locate_contents_placeholder(FILE, 6, 0).unwrap_err();
    assert_eq!(e.message(), "malformed PDF: Contents placeholder size mismatch");
    let e = locate_contents_placeholder(FILE, 4, 7).unwrap_err();
    assert_eq!(e.message(), "malformed PDF: /ByteRange not found");
}

#[test]
fn patches_the_byte_range() {
    let mut buf = FILE.to_vec();
    patch_byte_range(&mut buf, 0, 64, 74, 6).unwrap();
    let expected = format!("...<< /ByteRange {:<35}] /Contents <00000000> >>...", "[0 64 74 6");
    assert_eq!(String::from_utf8(buf.clone()).unwrap(), expected);
    assert_eq!(parse_byte_range(&buf[6..]).unwrap(), [0, 64, 74, 6]);
    patch_byte_range(&mut buf, 0, -9223372036854775808, 0, 1).unwrap();
    assert_eq!(parse_byte_range(&buf[6..]).unwrap(), [0, -9223372036854775808, 0, 1]);
    let mut small = b"/ByteRange [0]".to_vec();
    let e = patch_byte_range(&mut small, 0, 1, 2, 3).unwrap_err();
    assert_eq!(e.message(), "malformed PDF: ByteRange placeholder too small");
    assert_eq!(small, b"/ByteRange [0]".to_vec());
}

#[test]
fn fills_the_contents() {
    let mut buf = FILE.to_vec();
    fill_contents(&mut buf, 64, 4, &[0xab, 0x01]).unwrap();
    assert_eq!(&buf[64..74], b"<ab010000>");
    assert_eq!(bytes_outside(&buf, 64, 74), bytes_outside(FILE, 64, 74));
    assert_eq!(scan_contents(&buf, 6), Some(vec![0xab, 0x01, 0, 0]));
    match fill_contents(&mut buf, 64, 4, &[1, 2, 3, 4, 5]) {
        Err(Error::PlaceholderTooSmall { needed: 5, capacity: 4 }) => {}
        other => panic!("{:?}", other),
    }
}

#[test]
fn byte_range_needs_four_numbers() {
    assert_eq!(parse_byte_range(b"/ByteRange[ 0 1\n-2\t+3 ]").unwrap(), [0, 1, -2, 3]);
    assert_eq!(
        parse_byte_range(b"/ByteRange [1 2 3]").unwrap_err().message(),
        "malformed PDF: expected 4 ByteRange ints, got 3"
    );
    assert_eq!(parse_byte_range(b"/ByteRange").unwrap_err().message(), "malformed PDF: ByteRange '[' missing");
    assert_eq!(parse_byte_range(b"/ByteRange [").unwrap_err().message(), "malformed PDF: ByteRange ']' missing");
    assert_eq!(
        parse_byte_range(b"/ByteRange [\xff]").unwrap_err().message(),
        "malformed PDF: ByteRange not ASCII"
    );
}

#[test]
fn subfilter_stands_in_front() {
    let s = b"/SubFilter /ETSI.RFC3161 /X 1 /ByteRange [0 0 0 0]";
    assert_eq!(subfilter_before(s, 30), Some(b"ETSI.RFC3161".to_vec()));
    assert_eq!(subfilter_before(s, 5), None);
    assert_eq!(subfilter_before(b"/SubFilter (x) /ByteRange", 15), None);
}

#[test]
fn contents_end_with_their_der_length() {
    assert_eq!(cms_from_contents(&[0x30, 0x01, 0x05, 0, 0]).unwrap(), vec![0x30, 0x01, 0x05]);
    assert_eq!(
        cms_from_contents(&[0x31, 0x00]).unwrap_err().message(),
        "malformed PDF: CMS does not start with SEQUENCE"
    );
    assert_eq!(
        cms_from_contents(&[0x30]).unwrap_err().message(),
        "malformed PDF: cannot read CMS DER length"
    );
    assert_eq!(
        cms_from_contents(&[0x30, 0x05, 0]).unwrap_err().message(),
        "malformed PDF: CMS DER length exceeds placeholder"
    );
}

#[test]
fn gap_must_be_the_contents() {
    let s = b"ab<0102>cd";
    assert!(gap_is_contents(s, 2, 8, &[1, 2]));
    assert!(!gap_is_contents(s, 2, 8, &[1, 3]));
    assert!(!gap_is_contents(s, 1, 8, &[1, 2]));
    assert!(!gap_is_contents(s, 2, 9, &[1, 2]));
    assert!(!gap_is_contents(s, 8, 2, &[1, 2]));
    assert!(!gap_is_contents(s, 2, 80, &[1, 2]));
}

#[test]
fn signature_dictionary_is_exact() {
    let mut opts = SignOptions::default();
    opts.signature_capacity = 2;
    opts.reason = Some("because".to_string());
    opts.signing_time = Some("D:20260614120000Z".to_string());
    let mut out = Vec::new();
    write_object(&mut out, &build_sig_dict(&opts));
    assert_eq!(
        String::from_utf8(out).unwrap(),
        "<< /Type /Sig /Filter /Adobe.PPKLite /SubFilter /ETSI.CAdES.detached /ByteRange [0 9999999999 9999999999 9999999999] /Contents <0000> /Reason (because) /M (D:20260614120000Z) >>"
    );
}

#[test]
fn update_registers_the_field() {
    let pdf = testkit::sample_pdf().unwrap();
    let out = build_incremental_update(&pdf, &SignOptions::default()).unwrap();
    let doc = load_document(&out).unwrap();
    let catalog = doc.get_dict(doc.root_id().unwrap()).unwrap();
    let form = match catalog.get("AcroForm") {
        Some(Object::Dictionary(d)) => d,
        other => panic!("{:?}", other),
    };
    assert!(matches!(form.get("SigFlags"), Some(Object::Integer(3))));
    let field = match form.get("Fields") {
        Some(Object::Array(a)) if a.len() == 1 => a[0].as_reference().unwrap(),
        other => panic!("{:?}", other),
    };
    let widget = doc.get_dict(field).unwrap();
    assert!(matches!(widget.get("FT"), Some(Object::Name(n)) if n == b"Sig"));
    let page = doc.get_dict(doc.pages[0].1).unwrap();
    assert!(matches!(page.get("Annots"), Some(Object::Array(a)) if a.len() == 1));
    // Nothing is signed yet, so that the field's byte range is still the placeholder.
    let found = collect_signatures(&out);
    assert_eq!(found.len(), 1);
    assert_eq!(found[0].byte_range, [0, 9999999999, 9999999999, 9999999999]);
}

#[test]
fn placeholders_of_an_update_read_back() {
    let pdf = testkit::sample_pdf().unwrap();
    let mut opts = SignOptions::default();
    opts.signature_capacity = 8;
    let mut buf = build_incremental_update(&pdf, &opts).unwrap();
    let (lt, gt) = locate_contents_placeholder(&buf, 8, pdf.len()).unwrap();
    let rest = (buf.len() - gt - 1) as i64;
    patch_byte_range(&mut buf, pdf.len(), lt as i64, gt as i64 + 1, rest).unwrap();
    fill_contents(&mut buf, lt, 8, &[0x30, 0x01, 0x00]).unwrap();
    let by_scan = collect_signatures_by_scan(&buf);
    let by_structure = collect_signatures(&buf);
    assert_eq!(by_scan.len(), 1);
    assert_eq!(by_scan[0].byte_range, [0, lt as i64, gt as i64 + 1, rest]);
    assert_eq!(by_scan[0].contents, vec![0x30, 0x01, 0, 0, 0, 0, 0, 0]);
    assert!(!by_scan[0].is_timestamp);
    assert_eq!(by_structure.len(), 1);
    assert_eq!(by_structure[0].byte_range, by_scan[0].byte_range);
    assert_eq!(by_structure[0].contents, by_scan[0].contents);
}

#[test]
fn timestamp_update_is_a_timestamp() {
    let pdf = testkit::sample_pdf_xref_stream();
    let out = build_doctimestamp_update(&pdf, 8).unwrap();
    assert_eq!(&out[..pdf.len()], &pdf[..]);
    let found = collect_signatures(&out);
    assert_eq!(found.len(), 1);
    assert!(found[0].is_timestamp);
    assert!(collect_signatures_by_scan(&out)[0].is_timestamp);
}

#[test]
fn startxref_outside_of_the_file_is_refused() {
    let mut pdf = testkit::sample_pdf().unwrap();
    pdf.extend_from_slice(b"startxref\n99999999\n%%EOF\n");
    assert!(build_incremental_update(&pdf, &SignOptions::default()).is_err());
}
