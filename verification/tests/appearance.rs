use pdf_signer::appearance::{
    build_content, build_embedded_font, decode_image, decode_jpeg, encode_winansi_escaped, wrap_text,
};
use pdf_signer::document::{load_document, stream_bytes};
use pdf_signer::object::{Object, Stream};
use pdf_signer::scaling::scale;
use pdf_signer::testkit;
use pdf_signer::{sign_pdf_bytes, verify_pdf_bytes, Appearance, SignOptions, Step};

const PASSWORD: &str = "test-password";

fn wrapped(text: &str, max: usize) -> Vec<String> {
    wrap_text(text, max).iter().map(|l| l.iter().collect()).collect()
}

fn table(tag: &[u8], data: Vec<u8>) -> (Vec<u8>, Vec<u8>) {
    (tag.to_vec(), data)
}

fn words(v: &[i32]) -> Vec<u8> {
    v.iter().flat_map(|x| (*x as u16).to_be_bytes()).collect()
}

/// A font of two glyphs, without outlines: `A` is 1024 units wide, the rest has none.
fn tiny_font(upem: i32) -> Vec<u8> {
    let mut head = vec![0, 1, 0, 0, 0, 1, 0, 0, 0, 0, 0, 0, 0x5f, 0x0f, 0x3c, 0xf5];
    head.extend(words(&[0, upem]));
    head.extend(vec![0; 16]);
    head.extend(words(&[-100, -200, 900, 800, 0, 8, 2, 0, 0]));
    let mut hhea = vec![0, 1, 0, 0];
    hhea.extend(words(&[1500, -500, 0, 1024, 0, 0, 0, 1, 0, 0, 0, 0, 0, 0, 0, 2]));
    let maxp = vec![0, 0, 0x50, 0, 0, 2];
    let hmtx = words(&[600, 0, 1024, 0]);
    let mut cmap = words(&[0, 1, 0, 3, 0, 12]);
    cmap.extend(words(&[0, 262, 0]));
    let mut glyphs = vec![0u8; 256];
    glyphs[0x41] = 1;
    cmap.extend(glyphs);
    let tables =
        vec![table(b"cmap", cmap), table(b"head", head), table(b"hhea", hhea), table(b"hmtx", hmtx), table(b"maxp", maxp)];
    let mut out = vec![0, 1, 0, 0];
    out.extend(words(&[tables.len() as i32, 64, 2, 16]));
    let mut offset = 12 + 16 * tables.len();
    for (tag, data) in &tables {
        out.extend(tag);
        out.extend(vec![0; 4]);
        out.extend((offset as u32).to_be_bytes());
        out.extend((data.len() as u32).to_be_bytes());
        offset += (data.len() + 3) / 4 * 4;
    }
    for (_, data) in &tables {
        out.extend(data);
        while out.len() % 4 != 0 {
            out.push(0);
        }
    }
    out
}

fn integer(o: Option<&Object>) -> i64 {
    match o {
        Some(Object::Integer(i)) => *i,
        other => panic!("{:?}", other),
    }
}

fn integers(o: Option<&Object>) -> Vec<i64> {
    match o {
        Some(Object::Array(a)) => a.iter().map(|x| integer(Some(x))).collect(),
        other => panic!("{:?}", other),
    }
}

#[test]
fn wraps_words() {
    assert_eq!(wrapped("one two three", 7), vec!["one two", "three"]);
    assert_eq!(wrapped("one two three  \nfour", 80), vec!["one two three", "four"]);
    assert_eq!(wrapped("", 5), vec![""]);
    assert_eq!(wrapped("a\n\nb", 5), vec!["a", "", "b"]);
    assert_eq!(wrapped("abcdefgh ij", 3), vec!["abc", "def", "gh", "ij"]);
    assert_eq!(wrapped("ab cdefgh", 3), vec!["ab", "cde", "fgh"]);
    assert_eq!(wrapped("a abcdefgh", 4), vec!["a", "abcd", "efgh"]);
    assert_eq!(wrapped("\u{e9}\u{e9} x", 4), vec!["\u{e9}\u{e9} x"]);
}

#[test]
fn encodes_text() {
    assert_eq!(encode_winansi_escaped("a(b)\\\u{e9}\u{20ac}"), b"a\\(b\\)\\\\\xe9?".to_vec());
}

#[test]
fn content_is_exact() {
    let mut app = Appearance::default();
    app.text = "Signed by\nme (x)".to_string();
    let out = String::from_utf8(build_content(&app, "Helv", true)).unwrap();
    assert_eq!(
        out,
        "q 66.00 0 0 66.00 2.00 2.00 cm /Img Do Q\nq\n0.5 0.5 0.5 RG 0.75 w 0.50 0.50 259.00 69.00 re S\n0 0 0 rg\nBT\n/Helv 8.00 Tf\n9.60 TL\n2.00 60.00 Td\n(Signed by) Tj\nT* (me \\(x\\)) Tj\nET\nQ\n"
    );
    app.border = false;
    app.text = String::new();
    let out = String::from_utf8(build_content(&app, "EmbFont", false)).unwrap();
    assert_eq!(out, "q\n0 0 0 rg\nBT\n/EmbFont 8.00 Tf\n9.60 TL\n2.00 60.00 Td\n() Tj\nET\nQ\n");
}

#[test]
fn scales_like_floating_point() {
    for upem in [16u16, 1000, 1024, 2048, 1234, 16384, 3000] {
        for value in [0i32, 1, -1, 512, 600, 1024, -500, 32767, -32768, 65535, 333] {
            let s = 1000.0 / upem as f64;
            assert_eq!(scale(value, upem), (value as f64 * s).round() as i64, "{} {}", value, upem);
        }
    }
}

#[test]
fn embeds_fonts() {
    let bytes = tiny_font(2048);
    let (font, descriptor, file) = build_embedded_font(&bytes, (11, 0), (12, 0)).unwrap();
    let font = font.as_dict().unwrap();
    let widths = integers(font.get("Widths"));
    assert_eq!(widths.len(), 224);
    assert_eq!(widths[0x41 - 32], 500);
    assert_eq!(widths.iter().filter(|w| **w == 0).count(), 223);
    assert!(matches!(font.get("FontDescriptor"), Some(Object::Reference((11, 0)))));
    let descriptor = descriptor.as_dict().unwrap();
    assert_eq!(integer(descriptor.get("Ascent")), 732);
    assert_eq!(integer(descriptor.get("Descent")), -244);
    assert_eq!(integer(descriptor.get("CapHeight")), 732);
    assert_eq!(integer(descriptor.get("Flags")), 32);
    assert_eq!(integers(descriptor.get("FontBBox")), vec![-49, -98, 439, 391]);
    assert!(matches!(descriptor.get("FontFile2"), Some(Object::Reference((12, 0)))));
    match &file {
        Object::Stream(s) => {
            assert_eq!(integer(s.dict.get("Length1")), bytes.len() as i64);
            assert_eq!(stream_bytes(s), bytes);
            assert_ne!(s.content, bytes);
        }
        other => panic!("{:?}", other),
    }
    assert!(build_embedded_font(b"junk", (1, 0), (2, 0)).is_err());
}

#[test]
fn decodes_png() {
    let img = decode_image(&testkit::tiny_png().unwrap()).unwrap();
    assert_eq!((img.width, img.height), (4, 4));
    assert_eq!(img.color_space, "DeviceRGB");
    assert_eq!(img.filter, "FlateDecode");
    let undo = |content: Vec<u8>| -> Vec<u8> {
        let mut dict = pdf_signer::object::Dictionary::new();
        dict.set("Filter", Object::Name(b"FlateDecode".to_vec()));
        stream_bytes(&Stream { dict, content })
    };
    assert_eq!(undo(img.data), [220, 30, 30].repeat(16));
    assert_eq!(undo(img.smask.unwrap()), vec![255; 16]);
}

#[test]
fn reads_jpeg_dimensions() {
    let jpeg = [
        0xff, 0xd8, 0xff, 0xe0, 0x00, 0x04, 0x01, 0x02, 0xff, 0xc0, 0x00, 0x0b, 0x08, 0x00, 0x20, 0x01, 0x40, 0x01, 0x00,
    ];
    let img = decode_jpeg(&jpeg).unwrap();
    assert_eq!((img.width, img.height), (320, 32));
    assert_eq!(img.color_space, "DeviceGray");
    assert_eq!(img.filter, "DCTDecode");
    assert_eq!(img.data, jpeg.to_vec());
    assert!(img.smask.is_none());
    assert_eq!(
        decode_image(&jpeg[..17]).unwrap_err().message(),
        "malformed PDF: could not parse JPEG dimensions"
    );
    assert_eq!(
        decode_image(b"GIF89a").unwrap_err().message(),
        "malformed PDF: unsupported image format (use PNG or JPEG)"
    );
    assert!(decode_image(&[0x89, 0x50, 0x4e, 0x47, 0]).is_err());
}

#[test]
fn signs_with_a_visible_appearance() {
    let p12 = testkit::self_signed_p256_p12(PASSWORD).unwrap();
    let pdf = testkit::sample_pdf().unwrap();
    let mut app = Appearance::default();
    app.text = "Digitally signed".to_string();
    app.font = Some(tiny_font(1000));
    app.image = Some(testkit::tiny_png().unwrap());
    let mut opts = SignOptions::default();
    opts.appearance = Some(app);
    let out = match sign_pdf_bytes(&pdf, &p12, PASSWORD, &opts) {
        Step::Done(r) => r.unwrap(),
        Step::Fetch(_, _) => panic!("nothing is to be fetched"),
    };
    assert!(verify_pdf_bytes(&out).unwrap().all_valid());
    let doc = load_document(&out).unwrap();
    let page = doc.get_dict(doc.pages[0].1).unwrap();
    let widget = match page.get("Annots") {
        Some(Object::Array(a)) => doc.get_dict(a[0].as_reference().unwrap()).unwrap(),
        other => panic!("{:?}", other),
    };
    assert_eq!(integers(widget.get("Rect")), vec![36, 36, 296, 106]);
    let form = match widget.get("AP") {
        Some(Object::Dictionary(d)) => match d.get("N") {
            Some(Object::Reference(id)) => doc.get_object(*id).unwrap(),
            other => panic!("{:?}", other),
        },
        other => panic!("{:?}", other),
    };
    match form {
        Object::Stream(s) => {
            let text = String::from_utf8(stream_bytes(s)).unwrap();
            assert!(text.contains("(Digitally signed) Tj"));
            assert!(text.contains("/EmbFont 8.00 Tf"));
            assert!(text.contains("/Img Do"));
        }
        other => panic!("{:?}", other),
    }
}
