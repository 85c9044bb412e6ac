//! Rich visible-signature appearances: embedded TrueType fonts and PNG/JPEG
//! logos, plus the appearance content stream.
//!
//! Font embedding is a *simple* WinAnsi TrueType font (Latin-1); full Unicode
//! (Type0 / CID) is not implemented.
use vstd::prelude::*;

use crate::error::{malformed, Error, ErrorView};
use crate::incremental::{insert_item, zlib, zlib_compress, Incremental, Item};
use crate::object::{objs, put, Dict, Dictionary, Obj, Object, ObjectId, Real, Stream};
use crate::options::{Appearance, ImageBox};
use crate::scaling::{scale, scaled};
use crate::text::{chars_of, part, split_at_char, split_from, split_words, texts, trim_end, trimmed_len, words_from};
use crate::util::{bytes_of, concat_assoc, lit, push_str, to_vec, utf8};

verus! {

// ---------------------------------------------------------------------------
// Small objects

/// A name object.
pub fn name_object(s: &str) -> (r: Object)
    ensures
        r@ == Obj::Name(lit(s)),
{
    Object::Name(bytes_of(s))
}

/// A length as an integer object holds it.
pub open spec fn length_value(n: nat) -> i64 {
    if n <= i64::MAX { n as i64 } else { i64::MAX }
}

/// A length as an integer object holds it.
pub fn length_of(n: usize) -> (r: i64)
    ensures
        r == length_value(n as nat),
{
    let m: u64 = n as u64;
    if m <= i64::MAX as u64 { m as i64 } else { i64::MAX }
}

/// A stream object whose dictionary gives the length of its content.
pub open spec fn stream_obj(d: Dict, content: Seq<u8>) -> Obj {
    Obj::Stream(put(d, lit("Length"), Obj::Integer(length_value(content.len()))), content)
}

/// A stream object whose dictionary gives the length of its content.
pub fn new_stream(dict: Dictionary, content: Vec<u8>) -> (r: Object)
    ensures
        r@ == stream_obj(dict@, content@),
{
    let mut d: Dictionary = dict;
    d.set("Length", Object::Integer(length_of(content.len())));
    Object::Stream(Stream { dict: d, content })
}

/// An array of four objects.
pub fn array4(a: Object, b: Object, c: Object, d: Object) -> (r: Object)
    ensures
        r@ == Obj::Array(seq![a@, b@, c@, d@]),
{
    let v: Vec<Object> = vec![a, b, c, d];
    proof {
        crate::object::lemma_objs(v@);
        assert(objs(v@) =~= seq![a@, b@, c@, d@]);
    }
    Object::Array(v)
}

/// The real as an object.
pub fn real_object(r: &Real) -> (o: Object)
    ensures
        o@ == Obj::Real(r.bits, r.text@),
{
    Object::Real(Real { bits: r.bits, text: r.text.clone() })
}

/// The real zero.
pub open spec fn zero_real() -> Obj {
    Obj::Real(0, "0"@)
}

/// The real zero.
pub fn zero() -> (o: Object)
    ensures
        o@ == zero_real(),
{
    Object::Real(Real { bits: 0, text: "0".to_owned() })
}

/// Standard (non-embedded) Helvetica.
pub open spec fn helvetica_obj() -> Obj {
    let d = Seq::<(Seq<u8>, Obj)>::empty();
    let d = put(d, lit("Type"), Obj::Name(lit("Font")));
    let d = put(d, lit("Subtype"), Obj::Name(lit("Type1")));
    let d = put(d, lit("BaseFont"), Obj::Name(lit("Helvetica")));
    let d = put(d, lit("Encoding"), Obj::Name(lit("WinAnsiEncoding")));
    Obj::Dictionary(d)
}

/// Standard (non-embedded) Helvetica.
fn helvetica() -> (r: Object)
    ensures
        r@ == helvetica_obj(),
{
    let mut f: Dictionary = Dictionary::new();
    f.set("Type", name_object("Font"));
    f.set("Subtype", name_object("Type1"));
    f.set("BaseFont", name_object("Helvetica"));
    f.set("Encoding", name_object("WinAnsiEncoding"));
    Object::Dictionary(f)
}

// ---------------------------------------------------------------------------
// Embedded TrueType font (simple, WinAnsi)

/// What a font program says of the font as a whole, in font units.
#[derive(Debug)]
pub struct FontHeader {
    pub units_per_em: u16,
    pub x_min: i16,
    pub y_min: i16,
    pub x_max: i16,
    pub y_max: i16,
    pub italic_angle: Real,
    pub ascender: i16,
    pub descender: i16,
    pub capital_height: Option<i16>,
}

/// A font header as a mathematical value.
pub struct FontHeaderView {
    pub units_per_em: u16,
    pub x_min: i16,
    pub y_min: i16,
    pub x_max: i16,
    pub y_max: i16,
    pub italic_bits: u32,
    pub italic_text: Seq<char>,
    pub ascender: i16,
    pub descender: i16,
    pub capital_height: Option<i16>,
}

impl FontHeader {
    pub open spec fn view(&self) -> FontHeaderView {
        FontHeaderView {
            units_per_em: self.units_per_em,
            x_min: self.x_min,
            y_min: self.y_min,
            x_max: self.x_max,
            y_max: self.y_max,
            italic_bits: self.italic_angle.bits,
            italic_text: self.italic_angle.text@,
            ascender: self.ascender,
            descender: self.descender,
            capital_height: self.capital_height,
        }
    }
}

/// The header of the font program in the bytes, or why there is none.
pub uninterp spec fn font_header(font: Seq<u8>) -> Result<FontHeaderView, Seq<char>>;

/// Reads the header of a font program: `ttf_parser::Face::parse` for the first
/// face, and the values that the face gives. A face has between 16 and 16384
/// units per em.
#[verifier::external_body]
fn read_font_header(font: &[u8]) -> (r: Result<FontHeader, String>)
    ensures
        match r {
            Ok(h) => font_header(font@) == Ok::<FontHeaderView, Seq<char>>(h@) && 16 <= h.units_per_em <= 16384,
            Err(t) => font_header(font@) == Err::<FontHeaderView, Seq<char>>(t@),
        },
{
    let face = ttf_parser::Face::parse(font, 0).map_err(|e| e.to_string())?;
    let (bbox, italic) = (face.global_bounding_box(), face.italic_angle());
    Ok(FontHeader {
        units_per_em: face.units_per_em(),
        x_min: bbox.x_min,
        y_min: bbox.y_min,
        x_max: bbox.x_max,
        y_max: bbox.y_max,
        italic_angle: Real { bits: italic.to_bits(), text: italic.to_string() },
        ascender: face.ascender(),
        descender: face.descender(),
        capital_height: face.capital_height(),
    })
}

/// The advance width of a character's glyph in the font program, where the font
/// has both.
pub uninterp spec fn font_advance(font: Seq<u8>, c: char) -> Option<u16>;

/// The advance width of a character: `glyph_hor_advance` of the glyph that
/// `glyph_index` gives, both of the first face that `ttf_parser::Face::parse`
/// finds.
#[verifier::external_body]
fn read_font_advance(font: &[u8], c: char) -> (r: Option<u16>)
    ensures
        r == font_advance(font@, c),
{
    let face = ttf_parser::Face::parse(font, 0).ok()?;
    face.glyph_hor_advance(face.glyph_index(c)?)
}

/// The width of the character with code `b`, in thousandths of an em.
pub open spec fn width_of(font: Seq<u8>, upem: u16, b: int) -> Obj {
    let advance = match font_advance(font, b as u8 as char) {
        Some(a) => a as int,
        None => 0,
    };
    Obj::Integer(scaled(advance, upem as nat) as i64)
}

/// The widths of the WinAnsi characters 32 to 255.
pub open spec fn widths_of(font: Seq<u8>, upem: u16) -> Seq<Obj> {
    Seq::new(224, |i: int| width_of(font, upem, i + 32))
}

fn font_widths(font: &[u8], upem: u16) -> (r: Vec<Object>)
    requires
        upem > 0,
    ensures
        objs(r@) == widths_of(font@, upem),
{
    let mut v: Vec<Object> = Vec::new();
    let mut b: u8 = 32;
    loop
        invariant
            upem > 0,
            32 <= b,
            v@.len() == b - 32,
            forall|i: int| 0 <= i < v@.len() ==> (#[trigger] v@[i])@ == width_of(font@, upem, i + 32),
        decreases 255 - b,
    {
        let advance: u16 = match read_font_advance(font, b as char) {
            Some(a) => a,
            None => 0,
        };
        v.push(Object::Integer(scale(advance as i32, upem)));
        if b == 255 {
            proof {
                crate::object::lemma_objs(v@);
                assert(objs(v@) =~= widths_of(font@, upem));
            }
            return v;
        }
        b += 1;
    }
}

/// The font descriptor.
pub open spec fn descriptor_obj(h: FontHeaderView, fontfile_id: ObjectId) -> Obj {
    let upem = h.units_per_em as nat;
    let cap = match h.capital_height {
        Some(c) => c,
        None => h.ascender,
    };
    let d = Seq::<(Seq<u8>, Obj)>::empty();
    let d = put(d, lit("Type"), Obj::Name(lit("FontDescriptor")));
    let d = put(d, lit("FontName"), Obj::Name(lit("EmbeddedFont")));
    let d = put(d, lit("Flags"), Obj::Integer(if h.italic_bits % 0x8000_0000 != 0 { 96 } else { 32 }));
    let d = put(
        d,
        lit("FontBBox"),
        Obj::Array(
            seq![
                Obj::Integer(scaled(h.x_min as int, upem) as i64),
                Obj::Integer(scaled(h.y_min as int, upem) as i64),
                Obj::Integer(scaled(h.x_max as int, upem) as i64),
                Obj::Integer(scaled(h.y_max as int, upem) as i64),
            ],
        ),
    );
    let d = put(d, lit("ItalicAngle"), Obj::Real(h.italic_bits, h.italic_text));
    let d = put(d, lit("Ascent"), Obj::Integer(scaled(h.ascender as int, upem) as i64));
    let d = put(d, lit("Descent"), Obj::Integer(scaled(h.descender as int, upem) as i64));
    let d = put(d, lit("CapHeight"), Obj::Integer(scaled(cap as int, upem) as i64));
    let d = put(d, lit("StemV"), Obj::Integer(80));
    let d = put(d, lit("FontFile2"), Obj::Reference(fontfile_id));
    Obj::Dictionary(d)
}

/// The font program, compressed, with its uncompressed size.
pub open spec fn fontfile_obj(font: Seq<u8>) -> Obj {
    let d = Seq::<(Seq<u8>, Obj)>::empty();
    let d = put(d, lit("Length1"), Obj::Integer(length_value(font.len())));
    let d = put(d, lit("Filter"), Obj::Name(lit("FlateDecode")));
    stream_obj(d, zlib(font))
}

/// The font dictionary.
pub open spec fn font_obj(font: Seq<u8>, upem: u16, descriptor_id: ObjectId) -> Obj {
    let d = Seq::<(Seq<u8>, Obj)>::empty();
    let d = put(d, lit("Type"), Obj::Name(lit("Font")));
    let d = put(d, lit("Subtype"), Obj::Name(lit("TrueType")));
    let d = put(d, lit("BaseFont"), Obj::Name(lit("EmbeddedFont")));
    let d = put(d, lit("FirstChar"), Obj::Integer(32));
    let d = put(d, lit("LastChar"), Obj::Integer(255));
    let d = put(d, lit("Widths"), Obj::Array(widths_of(font, upem)));
    let d = put(d, lit("Encoding"), Obj::Name(lit("WinAnsiEncoding")));
    let d = put(d, lit("FontDescriptor"), Obj::Reference(descriptor_id));
    Obj::Dictionary(d)
}

/// The three objects of an embedded font, for a font whose header was read:
/// dictionary, descriptor and program.
pub fn build_font_objects(
    bytes: &[u8],
    header: &FontHeader,
    descriptor_id: ObjectId,
    fontfile_id: ObjectId,
) -> (r: (Object, Object, Object))
    requires
        header.units_per_em > 0,
    ensures
        r.0@ == font_obj(bytes@, header.units_per_em, descriptor_id),
        r.1@ == descriptor_obj(header@, fontfile_id),
        r.2@ == fontfile_obj(bytes@),
{
    let upem: u16 = header.units_per_em;
    let widths: Vec<Object> = font_widths(bytes, upem);
    let font_bbox: Object = array4(
        Object::Integer(scale(header.x_min as i32, upem)),
        Object::Integer(scale(header.y_min as i32, upem)),
        Object::Integer(scale(header.x_max as i32, upem)),
        Object::Integer(scale(header.y_max as i32, upem)),
    );
    let flags: i64 = if header.italic_angle.bits % 0x8000_0000 != 0 { 96 } else { 32 };
    let cap: i16 = match header.capital_height {
        Some(c) => c,
        None => header.ascender,
    };

    let mut descriptor: Dictionary = Dictionary::new();
    descriptor.set("Type", name_object("FontDescriptor"));
    descriptor.set("FontName", name_object("EmbeddedFont"));
    descriptor.set("Flags", Object::Integer(flags));
    descriptor.set("FontBBox", font_bbox);
    descriptor.set("ItalicAngle", real_object(&header.italic_angle));
    descriptor.set("Ascent", Object::Integer(scale(header.ascender as i32, upem)));
    descriptor.set("Descent", Object::Integer(scale(header.descender as i32, upem)));
    descriptor.set("CapHeight", Object::Integer(scale(cap as i32, upem)));
    descriptor.set("StemV", Object::Integer(80));
    descriptor.set("FontFile2", Object::Reference(fontfile_id));

    let mut ff: Dictionary = Dictionary::new();
    ff.set("Length1", Object::Integer(length_of(bytes.len())));
    ff.set("Filter", name_object("FlateDecode"));
    let fontfile: Object = new_stream(ff, zlib_compress(bytes));

    let mut font: Dictionary = Dictionary::new();
    font.set("Type", name_object("Font"));
    font.set("Subtype", name_object("TrueType"));
    font.set("BaseFont", name_object("EmbeddedFont"));
    font.set("FirstChar", Object::Integer(32));
    font.set("LastChar", Object::Integer(255));
    font.set("Widths", Object::Array(widths));
    font.set("Encoding", name_object("WinAnsiEncoding"));
    font.set("FontDescriptor", Object::Reference(descriptor_id));

    (Object::Dictionary(font), Object::Dictionary(descriptor), fontfile)
}

/// The three objects of an embedded font: dictionary, descriptor and program.
pub fn build_embedded_font(bytes: &[u8], descriptor_id: ObjectId, fontfile_id: ObjectId) -> (r: Result<
    (Object, Object, Object),
    Error,
>)
    ensures
        match font_header(bytes@) {
            Ok(h) => r matches Ok((f, d, p)) && f@ == font_obj(bytes@, h.units_per_em, descriptor_id) && d@
                == descriptor_obj(h, fontfile_id) && p@ == fontfile_obj(bytes@),
            Err(t) => r is Err && r->Err_0@ == ErrorView::Malformed(t),
        },
{
    match read_font_header(bytes) {
        Err(t) => Err(Error::Malformed(t)),
        Ok(header) => Ok(build_font_objects(bytes, &header, descriptor_id, fontfile_id)),
    }
}

// ---------------------------------------------------------------------------
// Image embedding

/// An image as it is embedded in a document.
#[derive(Debug)]
pub struct EmbeddedImage {
    pub width: u32,
    pub height: u32,
    pub color_space: &'static str,
    pub filter: &'static str,
    pub data: Vec<u8>,
    /// The compressed alpha samples, where the image has any.
    pub smask: Option<Vec<u8>>,
}

/// An embedded image as a mathematical value.
pub struct ImageView {
    pub width: u32,
    pub height: u32,
    pub color_space: Seq<char>,
    pub filter: Seq<char>,
    pub data: Seq<u8>,
    pub smask: Option<Seq<u8>>,
}

impl EmbeddedImage {
    pub open spec fn view(&self) -> ImageView {
        ImageView {
            width: self.width,
            height: self.height,
            color_space: self.color_space@,
            filter: self.filter@,
            data: self.data@,
            smask: match self.smask {
                Some(m) => Some(m@),
                None => None,
            },
        }
    }
}

/// The view of the result of reading an image.
pub open spec fn image_result(r: Result<EmbeddedImage, Error>) -> Result<ImageView, ErrorView> {
    match r {
        Ok(v) => Ok(v@),
        Err(e) => Err(e@),
    }
}

/// A marker that carries the frame header: SOF0 to SOF15 without DHT, JPG and DAC.
pub open spec fn is_frame_marker(m: u8) -> bool {
    0xc0 <= m <= 0xcf && m != 0xc4 && m != 0xc8 && m != 0xcc
}

/// Two bytes as a big-endian number.
pub open spec fn be2(b: Seq<u8>, i: int) -> int {
    b[i] * 256 + b[i + 1]
}

/// The index of the frame header's marker, looking from `i` on: other segments
/// are skipped by their length, stray bytes one by one.
pub open spec fn jpeg_frame(b: Seq<u8>, i: int) -> Option<int>
    decreases (if i < b.len() { b.len() - i } else { 0 }),
{
    if i < 0 || i + 9 >= b.len() {
        None
    } else if b[i] != 0xff {
        jpeg_frame(b, i + 1)
    } else if is_frame_marker(b[i + 1]) {
        Some(i)
    } else {
        jpeg_frame(b, i + 2 + be2(b, i + 2))
    }
}

/// A JPEG as it is embedded: its own bytes, with the size of its frame.
pub open spec fn jpeg_image(b: Seq<u8>) -> Result<ImageView, ErrorView> {
    match jpeg_frame(b, 2) {
        None => Err(ErrorView::Malformed("could not parse JPEG dimensions"@)),
        Some(i) => Ok(
            ImageView {
                width: be2(b, i + 7) as u32,
                height: be2(b, i + 5) as u32,
                color_space: if b[i + 9] == 1 { "DeviceGray"@ } else { "DeviceRGB"@ },
                filter: "DCTDecode"@,
                data: b,
                smask: None,
            },
        ),
    }
}

/// JPEG: embed the bytes directly as DCTDecode; parse the SOF for dimensions.
pub fn decode_jpeg(bytes: &[u8]) -> (r: Result<EmbeddedImage, Error>)
    ensures
        image_result(r) == jpeg_image(bytes@),
{
    let total: usize = bytes.len();
    let mut i: usize = 2;
    while total > 9 && i < total - 9
        invariant
            total == bytes.len(),
            jpeg_frame(bytes@, 2) == jpeg_frame(bytes@, i as int),
        decreases total - i,
    {
        if bytes[i] != 0xff {
            i += 1;
            continue ;
        }
        let marker: u8 = bytes[i + 1];
        if 0xc0 <= marker && marker <= 0xcf && marker != 0xc4 && marker != 0xc8 && marker != 0xcc {
            let height: u32 = bytes[i + 5] as u32 * 256 + bytes[i + 6] as u32;
            let width: u32 = bytes[i + 7] as u32 * 256 + bytes[i + 8] as u32;
            let color_space: &'static str = if bytes[i + 9] == 1 { "DeviceGray" } else { "DeviceRGB" };
            let data: Vec<u8> = to_vec(bytes);
            return Ok(EmbeddedImage { width, height, color_space, filter: "DCTDecode", data, smask: None });
        }
        let len: usize = bytes[i + 2] as usize * 256 + bytes[i + 3] as usize;
        if total - i <= 2 + len {
            assert(jpeg_frame(bytes@, i + 2 + be2(bytes@, i + 2)) is None);
            return Err(malformed("could not parse JPEG dimensions"));
        }
        i += 2 + len;
    }
    Err(malformed("could not parse JPEG dimensions"))
}

/// A decoded PNG: eight-bit samples, row by row. The colour type is that of the PNG
/// format: 0 for gray, 2 for colour, 3 for an index, 4 and 6 for gray and colour with
/// alpha.
#[derive(Debug)]
pub struct DecodedPng {
    pub width: u32,
    pub height: u32,
    pub color_type: u8,
    pub data: Vec<u8>,
}

/// A decoded PNG as a mathematical value.
pub struct PngView {
    pub width: u32,
    pub height: u32,
    pub color_type: u8,
    pub data: Seq<u8>,
}

impl DecodedPng {
    pub open spec fn view(&self) -> PngView {
        PngView { width: self.width, height: self.height, color_type: self.color_type, data: self.data@ }
    }
}

/// The first frame of the PNG in the bytes, expanded to eight-bit samples;
/// nothing where its size fits no buffer; or why it cannot be decoded.
pub uninterp spec fn png_frame(png: Seq<u8>) -> Result<Option<PngView>, Seq<char>>;

/// Decodes a PNG: `png::Decoder` with the transformations `EXPAND` and
/// `STRIP_16`, up to `next_frame`.
#[verifier::external_body]
fn read_png(bytes: &[u8]) -> (r: Result<Option<DecodedPng>, String>)
    ensures
        match r {
            Ok(Some(p)) => png_frame(bytes@) == Ok::<Option<PngView>, Seq<char>>(Some(p@)),
            Ok(None) => png_frame(bytes@) == Ok::<Option<PngView>, Seq<char>>(None),
            Err(t) => png_frame(bytes@) == Err::<Option<PngView>, Seq<char>>(t@),
        },
{
    let mut decoder = png::Decoder::new(std::io::Cursor::new(bytes));
    decoder.set_transformations(png::Transformations::EXPAND | png::Transformations::STRIP_16);
    let mut reader = decoder.read_info().map_err(|e| e.to_string())?;
    let Some(size) = reader.output_buffer_size() else { return Ok(None) };
    let mut data = vec![0u8; size];
    let info = reader.next_frame(&mut data).map_err(|e| e.to_string())?;
    data.truncate(info.buffer_size());
    Ok(Some(DecodedPng { width: info.width, height: info.height, color_type: info.color_type as u8, data }))
}

/// The colour samples of pixels with red, green, blue and alpha.
pub open spec fn rgb_of(data: Seq<u8>) -> Seq<u8> {
    Seq::new((data.len() / 4) * 3, |i: int| data[(i / 3) * 4 + i % 3])
}

/// The alpha samples of pixels with red, green, blue and alpha.
pub open spec fn rgb_alpha_of(data: Seq<u8>) -> Seq<u8> {
    Seq::new(data.len() / 4, |i: int| data[i * 4 + 3])
}

/// The gray samples of pixels with gray and alpha.
pub open spec fn gray_of(data: Seq<u8>) -> Seq<u8> {
    Seq::new(data.len() / 2, |i: int| data[i * 2])
}

/// The alpha samples of pixels with gray and alpha.
pub open spec fn gray_alpha_of(data: Seq<u8>) -> Seq<u8> {
    Seq::new(data.len() / 2, |i: int| data[i * 2 + 1])
}

/// A decoded PNG as it is embedded: colour and alpha apart, each compressed.
pub open spec fn png_embedded(p: PngView) -> Result<ImageView, ErrorView> {
    let (space, color, alpha) = if p.color_type == 2 {
        ("DeviceRGB"@, p.data, None)
    } else if p.color_type == 6 {
        ("DeviceRGB"@, rgb_of(p.data), Some(zlib(rgb_alpha_of(p.data))))
    } else if p.color_type == 4 {
        ("DeviceGray"@, gray_of(p.data), Some(zlib(gray_alpha_of(p.data))))
    } else {
        ("DeviceGray"@, p.data, None)
    };
    if p.color_type != 0 && p.color_type != 2 && p.color_type != 4 && p.color_type != 6 {
        Err(ErrorView::Malformed("indexed PNG not expanded"@))
    } else {
        Ok(
            ImageView {
                width: p.width,
                height: p.height,
                color_space: space,
                filter: "FlateDecode"@,
                data: zlib(color),
                smask: alpha,
            },
        )
    }
}

/// A PNG as it is embedded.
pub open spec fn png_image(b: Seq<u8>) -> Result<ImageView, ErrorView> {
    match png_frame(b) {
        Err(t) => Err(ErrorView::Malformed(t)),
        Ok(None) => Err(ErrorView::Malformed("PNG dimensions too large"@)),
        Ok(Some(p)) => png_embedded(p),
    }
}

/// Splits pixels with red, green, blue and alpha into colour and alpha.
fn split_rgba(data: &[u8]) -> (r: (Vec<u8>, Vec<u8>))
    ensures
        r.0@ == rgb_of(data@),
        r.1@ == rgb_alpha_of(data@),
{
    let mut color: Vec<u8> = Vec::new();
    let mut alpha: Vec<u8> = Vec::new();
    let mut i: usize = 0;
    let pixels: usize = data.len() / 4;
    while i < pixels
        invariant
            pixels == data.len() / 4,
            i <= pixels,
            color@.len() == i * 3,
            alpha@.len() == i,
            forall|k: int| 0 <= k < color@.len() ==> #[trigger] color@[k] == data@[(k / 3) * 4 + k % 3],
            forall|k: int| 0 <= k < i ==> #[trigger] alpha@[k] == data@[k * 4 + 3],
        decreases pixels - i,
    {
        color.push(data[i * 4]);
        color.push(data[i * 4 + 1]);
        color.push(data[i * 4 + 2]);
        alpha.push(data[i * 4 + 3]);
        i += 1;
    }
    assert(color@ =~= rgb_of(data@));
    assert(alpha@ =~= rgb_alpha_of(data@));
    (color, alpha)
}

/// Splits pixels with gray and alpha into gray and alpha.
fn split_gray_alpha(data: &[u8]) -> (r: (Vec<u8>, Vec<u8>))
    ensures
        r.0@ == gray_of(data@),
        r.1@ == gray_alpha_of(data@),
{
    let mut gray: Vec<u8> = Vec::new();
    let mut alpha: Vec<u8> = Vec::new();
    let mut i: usize = 0;
    let pixels: usize = data.len() / 2;
    while i < pixels
        invariant
            pixels == data.len() / 2,
            i <= pixels,
            gray@ == Seq::new(i as nat, |k: int| data@[k * 2]),
            alpha@ == Seq::new(i as nat, |k: int| data@[k * 2 + 1]),
        decreases pixels - i,
    {
        gray.push(data[i * 2]);
        alpha.push(data[i * 2 + 1]);
        i += 1;
        assert(gray@ =~= Seq::new(i as nat, |k: int| data@[k * 2]));
        assert(alpha@ =~= Seq::new(i as nat, |k: int| data@[k * 2 + 1]));
    }
    (gray, alpha)
}

/// Embeds a decoded PNG: colour and alpha apart, each FlateDecode'd.
pub fn embed_png(p: DecodedPng) -> (r: Result<EmbeddedImage, Error>)
    ensures
        image_result(r) == png_embedded(p@),
{
    match p.color_type {
        2 => Ok(
            EmbeddedImage {
                width: p.width,
                height: p.height,
                color_space: "DeviceRGB",
                filter: "FlateDecode",
                data: zlib_compress(&p.data),
                smask: None,
            },
        ),
        0 => Ok(
            EmbeddedImage {
                width: p.width,
                height: p.height,
                color_space: "DeviceGray",
                filter: "FlateDecode",
                data: zlib_compress(&p.data),
                smask: None,
            },
        ),
        6 => {
            let (color, alpha) = split_rgba(&p.data);
            Ok(
                EmbeddedImage {
                    width: p.width,
                    height: p.height,
                    color_space: "DeviceRGB",
                    filter: "FlateDecode",
                    data: zlib_compress(&color),
                    smask: Some(zlib_compress(&alpha)),
                },
            )
        },
        4 => {
            let (color, alpha) = split_gray_alpha(&p.data);
            Ok(
                EmbeddedImage {
                    width: p.width,
                    height: p.height,
                    color_space: "DeviceGray",
                    filter: "FlateDecode",
                    data: zlib_compress(&color),
                    smask: Some(zlib_compress(&alpha)),
                },
            )
        },
        _ => Err(malformed("indexed PNG not expanded")),
    }
}

/// PNG: decode to 8-bit samples, split colour and alpha, embed FlateDecode'd.
pub fn decode_png(bytes: &[u8]) -> (r: Result<EmbeddedImage, Error>)
    ensures
        image_result(r) == png_image(bytes@),
{
    match read_png(bytes) {
        Err(t) => Err(Error::Malformed(t)),
        Ok(None) => Err(malformed("PNG dimensions too large")),
        Ok(Some(p)) => embed_png(p),
    }
}

/// An image by its first bytes: JPEG, PNG, or nothing that can be embedded.
pub open spec fn image_of(b: Seq<u8>) -> Result<ImageView, ErrorView> {
    if b.len() >= 2 && b[0] == 0xff && b[1] == 0xd8 {
        jpeg_image(b)
    } else if b.len() >= 4 && b[0] == 0x89 && b[1] == 0x50 && b[2] == 0x4e && b[3] == 0x47 {
        png_image(b)
    } else {
        Err(ErrorView::Malformed("unsupported image format (use PNG or JPEG)"@))
    }
}

/// Reads a PNG or JPEG image.
pub fn decode_image(bytes: &[u8]) -> (r: Result<EmbeddedImage, Error>)
    ensures
        image_result(r) == image_of(bytes@),
{
    if bytes.len() >= 2 && bytes[0] == 0xff && bytes[1] == 0xd8 {
        decode_jpeg(bytes)
    } else if bytes.len() >= 4 && bytes[0] == 0x89 && bytes[1] == 0x50 && bytes[2] == 0x4e && bytes[3] == 0x47 {
        decode_png(bytes)
    } else {
        Err(malformed("unsupported image format (use PNG or JPEG)"))
    }
}

/// An image XObject.
pub open spec fn image_obj(
    width: u32,
    height: u32,
    color_space: Seq<char>,
    filter: Seq<char>,
    data: Seq<u8>,
    smask: Option<ObjectId>,
) -> Obj {
    let d = Seq::<(Seq<u8>, Obj)>::empty();
    let d = put(d, lit("Type"), Obj::Name(lit("XObject")));
    let d = put(d, lit("Subtype"), Obj::Name(lit("Image")));
    let d = put(d, lit("Width"), Obj::Integer(width as i64));
    let d = put(d, lit("Height"), Obj::Integer(height as i64));
    let d = put(d, lit("ColorSpace"), Obj::Name(utf8(color_space)));
    let d = put(d, lit("BitsPerComponent"), Obj::Integer(8));
    let d = put(d, lit("Filter"), Obj::Name(utf8(filter)));
    let d = match smask {
        Some(id) => put(d, lit("SMask"), Obj::Reference(id)),
        None => d,
    };
    stream_obj(d, data)
}

fn image_stream(
    width: u32,
    height: u32,
    color_space: &str,
    filter: &str,
    data: Vec<u8>,
    smask: Option<ObjectId>,
) -> (r: Object)
    ensures
        r@ == image_obj(width, height, color_space@, filter@, data@, smask),
{
    let mut d: Dictionary = Dictionary::new();
    d.set("Type", name_object("XObject"));
    d.set("Subtype", name_object("Image"));
    d.set("Width", Object::Integer(width as i64));
    d.set("Height", Object::Integer(height as i64));
    d.set("ColorSpace", name_object(color_space));
    d.set("BitsPerComponent", Object::Integer(8));
    d.set("Filter", name_object(filter));
    if let Some(sm) = smask {
        d.set("SMask", Object::Reference(sm));
    }
    new_stream(d, data)
}

// ---------------------------------------------------------------------------
// Text

/// A word cut into lines of `max` characters: the full lines behind `out`, and
/// what is left for the line that goes on.
pub open spec fn chunked(out: Seq<Seq<char>>, word: Seq<char>, max: nat) -> (Seq<Seq<char>>, Seq<char>)
    decreases word.len(),
{
    if word.len() <= max || max == 0 {
        (out, word)
    } else {
        chunked(out.push(word.take(max as int)), word.skip(max as int), max)
    }
}

/// One more word behind the lines `out` and the line `cur`.
pub open spec fn add_word(
    out: Seq<Seq<char>>,
    cur: Seq<char>,
    word: Seq<char>,
    max: nat,
) -> (Seq<Seq<char>>, Seq<char>) {
    if cur.len() == 0 {
        chunked(out, word, max)
    } else if cur.len() + 1 + word.len() <= max {
        (out, cur.push(' ') + word)
    } else {
        chunked(out.push(cur), word, max)
    }
}

/// The lines that words fill, and the line that goes on.
pub open spec fn fill_lines(words: Seq<Seq<char>>, max: nat) -> (Seq<Seq<char>>, Seq<char>)
    decreases words.len(),
{
    if words.len() == 0 {
        (Seq::empty(), Seq::empty())
    } else {
        let (out, cur) = fill_lines(words.drop_last(), max);
        add_word(out, cur, words.last(), max)
    }
}

/// The lines of a paragraph; an empty one has one empty line.
pub open spec fn wrap_paragraph(p: Seq<char>, max: nat) -> Seq<Seq<char>> {
    let t = trim_end(p);
    if t.len() == 0 {
        seq![Seq::empty()]
    } else {
        let (out, cur) = fill_lines(words_from(t, 0), max);
        if cur.len() == 0 {
            out
        } else {
            out.push(cur)
        }
    }
}

/// The lines of paragraphs.
pub open spec fn wrap_paragraphs(ps: Seq<Seq<char>>, max: nat) -> Seq<Seq<char>>
    decreases ps.len(),
{
    if ps.len() == 0 {
        Seq::empty()
    } else {
        wrap_paragraphs(ps.drop_last(), max) + wrap_paragraph(ps.last(), max)
    }
}

/// The lines of a text wrapped at `max` characters, at least one.
pub open spec fn wrapped(text: Seq<char>, max: nat) -> Seq<Seq<char>> {
    wrap_paragraphs(split_from(text, '\n', 0), if max == 0 { 1 } else { max })
}

proof fn lemma_chunked_short(out: Seq<Seq<char>>, word: Seq<char>, max: nat)
    requires
        max >= 1,
        forall|i: int| 0 <= i < out.len() ==> (#[trigger] out[i]).len() <= max,
    ensures
        ({
            let (lines, cur) = chunked(out, word, max);
            cur.len() <= max && forall|i: int| 0 <= i < lines.len() ==> (#[trigger] lines[i]).len() <= max
        }),
    decreases word.len(),
{
    if word.len() > max {
        lemma_chunked_short(out.push(word.take(max as int)), word.skip(max as int), max);
    }
}

proof fn lemma_fill_short(words: Seq<Seq<char>>, max: nat)
    requires
        max >= 1,
    ensures
        ({
            let (out, cur) = fill_lines(words, max);
            cur.len() <= max && forall|i: int| 0 <= i < out.len() ==> (#[trigger] out[i]).len() <= max
        }),
    decreases words.len(),
{
    if words.len() > 0 {
        lemma_fill_short(words.drop_last(), max);
        let (out, cur) = fill_lines(words.drop_last(), max);
        if cur.len() == 0 {
            lemma_chunked_short(out, words.last(), max);
        } else if cur.len() + 1 + words.last().len() > max {
            lemma_chunked_short(out.push(cur), words.last(), max);
        }
    }
}

proof fn lemma_paragraphs_short(ps: Seq<Seq<char>>, max: nat)
    requires
        max >= 1,
    ensures
        forall|i: int| 0 <= i < wrap_paragraphs(ps, max).len() ==> (#[trigger] wrap_paragraphs(ps, max)[i]).len() <= max,
    decreases ps.len(),
{
    if ps.len() > 0 {
        lemma_paragraphs_short(ps.drop_last(), max);
        let t = trim_end(ps.last());
        lemma_fill_short(words_from(t, 0), max);
        let (front, back) = (wrap_paragraphs(ps.drop_last(), max), wrap_paragraph(ps.last(), max));
        assert forall|i: int| 0 <= i < (front + back).len() implies (#[trigger] (front + back)[i]).len() <= max by {
            if i < front.len() {
                assert(front[i].len() <= max);
            } else {
                assert(back[i - front.len()].len() <= max);
            }
        }
    }
}

/// Wrapping keeps every line within `max` characters: longer words are cut.
pub proof fn law_wrap_keeps_lines_short(text: Seq<char>, max: nat)
    requires
        max >= 1,
    ensures
        forall|i: int| 0 <= i < wrapped(text, max).len() ==> (#[trigger] wrapped(text, max)[i]).len() <= max,
{
    lemma_paragraphs_short(split_from(text, '\n', 0), max);
}

/// Cuts a word into full lines behind `out`, and returns what is left of it.
fn push_chunks(out: &mut Vec<Vec<char>>, word: &Vec<char>, max: usize) -> (cur: Vec<char>)
    requires
        max >= 1,
    ensures
        (texts(final(out)@), cur@) == chunked(texts(old(out)@), word@, max as nat),
{
    let ghost all = chunked(texts(out@), word@, max as nat);
    let mut from: usize = 0;
    assert(word@.skip(0) =~= word@);
    while word.len() - from > max
        invariant
            max >= 1,
            from <= word.len(),
            all == chunked(texts(out@), word@.skip(from as int), max as nat),
        decreases word.len() - from,
    {
        let ghost before = texts(out@);
        out.push(part(word, from, from + max));
        proof {
            let rest = word@.skip(from as int);
            assert(rest.take(max as int) =~= word@.subrange(from as int, from + max));
            assert(rest.skip(max as int) =~= word@.skip(from + max));
            assert(texts(out@) =~= before.push(rest.take(max as int)));
        }
        from += max;
    }
    let cur: Vec<char> = part(word, from, word.len());
    assert(cur@ =~= word@.skip(from as int));
    cur
}

/// Puts one more word behind the lines `out` and the line `cur`.
fn push_word(out: &mut Vec<Vec<char>>, cur: &mut Vec<char>, word: &Vec<char>, max: usize)
    requires
        max >= 1,
    ensures
        (texts(final(out)@), final(cur)@) == add_word(texts(old(out)@), old(cur)@, word@, max as nat),
{
    if cur.len() == 0 {
        *cur = push_chunks(out, word, max);
    } else if cur.len() < max && word.len() <= max - cur.len() - 1 {
        let ghost before = cur@;
        cur.push(' ');
        let mut rest: Vec<char> = part(word, 0, word.len());
        assert(rest@ =~= word@);
        cur.append(&mut rest);
        assert(cur@ =~= before.push(' ') + word@);
    } else {
        let ghost before = texts(out@);
        let full: Vec<char> = part(cur, 0, cur.len());
        assert(full@ =~= cur@);
        out.push(full);
        assert(texts(out@) =~= before.push(old(cur)@));
        *cur = push_chunks(out, word, max);
    }
}

/// The lines of a paragraph, behind `out`.
fn push_paragraph(out: &mut Vec<Vec<char>>, p: &Vec<char>, max: usize)
    requires
        max >= 1,
    ensures
        texts(final(out)@) == texts(old(out)@) + wrap_paragraph(p@, max as nat),
{
    let ghost start = texts(out@);
    let n: usize = trimmed_len(p);
    if n == 0 {
        out.push(Vec::new());
        assert(texts(out@) =~= start + seq![Seq::<char>::empty()]);
        return ;
    }
    let t: Vec<char> = part(p, 0, n);
    assert(t@ =~= trim_end(p@));
    let words: Vec<Vec<char>> = split_words(&t);
    let mut lines: Vec<Vec<char>> = Vec::new();
    let mut cur: Vec<char> = Vec::new();
    let mut i: usize = 0;
    proof {
        assert(texts(words@).take(0) =~= Seq::empty());
        assert(texts(lines@) =~= Seq::empty());
        assert(cur@ =~= Seq::empty());
    }
    while i < words.len()
        invariant
            max >= 1,
            i <= words.len(),
            (texts(lines@), cur@) == fill_lines(texts(words@).take(i as int), max as nat),
        decreases words.len() - i,
    {
        push_word(&mut lines, &mut cur, &words[i], max);
        proof {
            let w = texts(words@).take(i + 1);
            assert(w.drop_last() =~= texts(words@).take(i as int));
            assert(w.last() == words@[i as int]@);
        }
        i += 1;
    }
    assert(texts(words@).take(i as int) =~= texts(words@));
    if cur.len() > 0 {
        let ghost before = texts(lines@);
        let ghost last = cur@;
        lines.push(cur);
        assert(texts(lines@) =~= before.push(last));
    }
    let ghost all = texts(lines@);
    assert(all == wrap_paragraph(p@, max as nat));
    let ghost added = lines@;
    out.append(&mut lines);
    assert(texts(out@) =~= start + all);
}

/// Greedy word-wrap at `max_chars` characters a line, at least one.
pub fn wrap_text(text: &str, max_chars: usize) -> (r: Vec<Vec<char>>)
    ensures
        texts(r@) == wrapped(text@, max_chars as nat),
{
    let max: usize = if max_chars == 0 { 1 } else { max_chars };
    let chars: Vec<char> = chars_of(text);
    let ps: Vec<Vec<char>> = split_at_char(&chars, '\n');
    let mut out: Vec<Vec<char>> = Vec::new();
    let mut i: usize = 0;
    proof {
        assert(texts(ps@).take(0) =~= Seq::empty());
        assert(texts(out@) =~= Seq::empty());
    }
    while i < ps.len()
        invariant
            max >= 1,
            i <= ps.len(),
            texts(out@) == wrap_paragraphs(texts(ps@).take(i as int), max as nat),
        decreases ps.len() - i,
    {
        push_paragraph(&mut out, &ps[i], max);
        proof {
            let w = texts(ps@).take(i + 1);
            assert(w.drop_last() =~= texts(ps@).take(i as int));
            assert(w.last() == ps@[i as int]@);
        }
        i += 1;
    }
    assert(texts(ps@).take(i as int) =~= texts(ps@));
    out
}

/// A character in the WinAnsi encoding, a question mark where it has none.
pub open spec fn winansi(c: char) -> u8 {
    if c as u32 <= 0xff { c as u8 } else { 0x3f }
}

/// A character as it is written in a literal string.
pub open spec fn winansi_escaped(c: char) -> Seq<u8> {
    let b = winansi(c);
    if b == 0x28 || b == 0x29 || b == 0x5c {
        seq![0x5cu8, b]
    } else {
        seq![b]
    }
}

/// A line as it is written in a literal string.
pub open spec fn line_bytes(s: Seq<char>) -> Seq<u8>
    decreases s.len(),
{
    if s.len() == 0 {
        Seq::empty()
    } else {
        line_bytes(s.drop_last()) + winansi_escaped(s.last())
    }
}

/// Encode a line to WinAnsi bytes, escaping PDF literal-string specials.
pub fn encode_winansi_escaped(s: &str) -> (r: Vec<u8>)
    ensures
        r@ == line_bytes(s@),
{
    encode_line(&chars_of(s))
}

fn encode_line(s: &[char]) -> (r: Vec<u8>)
    ensures
        r@ == line_bytes(s@),
{
    let mut v: Vec<u8> = Vec::new();
    let mut i: usize = 0;
    while i < s.len()
        invariant
            i <= s.len(),
            v@ == line_bytes(s@.take(i as int)),
        decreases s.len() - i,
    {
        let c: char = s[i];
        let b: u8 = if c as u32 <= 0xff { c as u8 } else { 0x3f };
        if b == 0x28 || b == 0x29 || b == 0x5c {
            v.push(0x5c);
        }
        v.push(b);
        proof {
            let t = s@.take(i + 1);
            assert(t.drop_last() =~= s@.take(i as int));
            assert(v@ =~= line_bytes(t));
        }
        i += 1;
    }
    assert(s@.take(i as int) =~= s@);
    v
}

// ---------------------------------------------------------------------------
// Content stream

/// The operators that show the lines, from the first line on.
pub open spec fn lines_bytes(lines: Seq<Seq<char>>) -> Seq<u8>
    decreases lines.len(),
{
    if lines.len() == 0 {
        Seq::empty()
    } else {
        lines_bytes(lines.drop_last()) + (if lines.len() > 1 { lit("T* ") } else { Seq::empty() }) + lit("(")
            + line_bytes(lines.last()) + lit(") Tj\n")
    }
}

/// The operators that draw the logo.
pub open spec fn image_bytes(b: ImageBox) -> Seq<u8> {
    lit("q ") + utf8(b.width@) + lit(" 0 0 ") + utf8(b.height@) + lit(" ") + utf8(b.x@) + lit(" ") + utf8(b.y@) + lit(
        " cm /Img Do Q\n",
    )
}

/// The operators that draw the border.
pub open spec fn border_bytes(width: Seq<char>, height: Seq<char>) -> Seq<u8> {
    lit("0.5 0.5 0.5 RG 0.75 w 0.50 0.50 ") + utf8(width) + lit(" ") + utf8(height) + lit(" re S\n")
}

/// The content stream: optional logo, optional border, wrapped text.
pub open spec fn content_bytes(app: Appearance, font_name: Seq<char>, image: bool) -> Seq<u8> {
    (if image { image_bytes(app.image_box) } else { Seq::empty() }) + lit("q\n") + (if app.border {
        border_bytes(app.frame_width@, app.frame_height@)
    } else {
        Seq::empty()
    }) + lit("0 0 0 rg\nBT\n/") + utf8(font_name) + lit(" ") + utf8(app.font_size@) + lit(" Tf\n") + utf8(
        app.leading@,
    ) + lit(" TL\n2.00 ") + utf8(app.first_line@) + lit(" Td\n") + lines_bytes(
        wrapped(app.text@, app.max_chars as nat),
    ) + lit("ET\nQ\n")
}

/// Render the appearance: optional image, optional border, wrapped text.
pub fn build_content(app: &Appearance, font_name: &str, image: bool) -> (r: Vec<u8>)
    ensures
        r@ == content_bytes(*app, font_name@, image),
{
    let lines: Vec<Vec<char>> = wrap_text(app.text.as_str(), app.max_chars);
    let mut out: Vec<u8> = Vec::new();
    if image {
        push_image(&mut out, &app.image_box);
    }
    assert(out@ =~= if image { image_bytes(app.image_box) } else { Seq::empty() });
    push_str(&mut out, "q\n");
    let ghost a = out@;
    if app.border {
        push_border(&mut out, app.frame_width.as_str(), app.frame_height.as_str());
    }
    assert(out@ =~= a + if app.border { border_bytes(app.frame_width@, app.frame_height@) } else { Seq::empty() });
    push_str(&mut out, "0 0 0 rg\nBT\n/");
    push_str(&mut out, font_name);
    push_str(&mut out, " ");
    push_str(&mut out, app.font_size.as_str());
    push_str(&mut out, " Tf\n");
    push_str(&mut out, app.leading.as_str());
    push_str(&mut out, " TL\n2.00 ");
    push_str(&mut out, app.first_line.as_str());
    push_str(&mut out, " Td\n");
    push_lines(&mut out, &lines);
    push_str(&mut out, "ET\nQ\n");
    out
}

fn push_image(out: &mut Vec<u8>, b: &ImageBox)
    ensures
        final(out)@ == old(out)@ + image_bytes(*b),
{
    push_str(out, "q ");
    push_str(out, b.width.as_str());
    push_str(out, " 0 0 ");
    push_str(out, b.height.as_str());
    push_str(out, " ");
    push_str(out, b.x.as_str());
    push_str(out, " ");
    push_str(out, b.y.as_str());
    push_str(out, " cm /Img Do Q\n");
    assert(out@ == old(out)@ + image_bytes(*b)) by {
        broadcast use concat_assoc;
    }
}

fn push_border(out: &mut Vec<u8>, width: &str, height: &str)
    ensures
        final(out)@ == old(out)@ + border_bytes(width@, height@),
{
    push_str(out, "0.5 0.5 0.5 RG 0.75 w 0.50 0.50 ");
    push_str(out, width);
    push_str(out, " ");
    push_str(out, height);
    push_str(out, " re S\n");
    assert(out@ == old(out)@ + border_bytes(width@, height@)) by {
        broadcast use concat_assoc;
    }
}

fn push_lines(out: &mut Vec<u8>, lines: &Vec<Vec<char>>)
    ensures
        final(out)@ == old(out)@ + lines_bytes(texts(lines@)),
{
    let ghost start = out@;
    let mut i: usize = 0;
    assert(texts(lines@).take(0) =~= Seq::empty());
    while i < lines.len()
        invariant
            i <= lines.len(),
            out@ =~= start + lines_bytes(texts(lines@).take(i as int)),
        decreases lines.len() - i,
    {
        let ghost before = out@;
        if i > 0 {
            push_str(out, "T* ");
        }
        push_str(out, "(");
        let encoded: Vec<u8> = encode_line(&lines[i]);
        out.extend_from_slice(&encoded);
        push_str(out, ") Tj\n");
        proof {
            let t = texts(lines@).take(i + 1);
            assert(t.drop_last() =~= texts(lines@).take(i as int));
            assert(t.last() == lines@[i as int]@);
            assert(out@ =~= before + (if i > 0 { lit("T* ") } else { Seq::empty() }) + lit("(") + line_bytes(t.last())
                + lit(") Tj\n"));
            assert(out@ =~= start + lines_bytes(t));
        }
        i += 1;
    }
    assert(texts(lines@).take(i as int) =~= texts(lines@));
}

// ---------------------------------------------------------------------------
// The appearance's objects

/// The items with a fresh object of generation zero among them.
pub open spec fn add_fresh(s: Seq<Item>, id: int, o: Obj) -> Seq<Item> {
    insert_item(s, (Item { id: id as u32, gen: 0, obj: o }))
}

/// An object number with generation zero.
pub open spec fn fresh(id: int) -> ObjectId {
    (id as u32, 0)
}

/// How many object numbers an appearance takes at most.
pub const APPEARANCE_OBJECTS: u32 = 6;

/// Allocate the next object id (generation 0) and advance the counter. The counter may
/// run past the largest object number; an update that needs such a number is refused.
pub fn alloc_id(next_id: &mut u64) -> (r: ObjectId)
    requires
        *old(next_id) < u64::MAX,
    ensures
        r == fresh(*old(next_id) as int),
        *final(next_id) == *old(next_id) + 1,
{
    let id: ObjectId = (#[verifier::truncate] (*next_id as u32), 0);
    *next_id = *next_id + 1;
    id
}

/// The items with the font's objects among them, from object number `n` on, and
/// the next free number.
pub open spec fn font_added(s: Seq<Item>, n: int, font: Option<Vec<u8>>) -> Result<(Seq<Item>, int), ErrorView> {
    match font {
        None => Ok((add_fresh(s, n, helvetica_obj()), n + 1)),
        Some(f) => match font_header(f@) {
            Err(t) => Err(ErrorView::Malformed(t)),
            Ok(h) => Ok(
                (
                    add_fresh(
                        add_fresh(
                            add_fresh(s, n, font_obj(f@, h.units_per_em, fresh(n + 1))),
                            n + 1,
                            descriptor_obj(h, fresh(n + 2)),
                        ),
                        n + 2,
                        fontfile_obj(f@),
                    ),
                    n + 3,
                ),
            ),
        },
    }
}

/// The resource name of the font.
pub open spec fn font_name(font: Option<Vec<u8>>) -> Seq<char> {
    if font is Some { "EmbFont"@ } else { "Helv"@ }
}

/// The items with the logo's objects among them, from object number `n` on, the
/// next free number and the number of the logo.
pub open spec fn image_added(s: Seq<Item>, n: int, image: Option<Vec<u8>>) -> Result<
    (Seq<Item>, int, Option<int>),
    ErrorView,
> {
    match image {
        None => Ok((s, n, None)),
        Some(b) => match image_of(b@) {
            Err(e) => Err(e),
            Ok(img) => match img.smask {
                Some(m) => {
                    let masked = add_fresh(
                        s,
                        n,
                        image_obj(img.width, img.height, "DeviceGray"@, "FlateDecode"@, m, None),
                    );
                    Ok(
                        (
                            add_fresh(
                                masked,
                                n + 1,
                                image_obj(
                                    img.width,
                                    img.height,
                                    img.color_space,
                                    img.filter,
                                    img.data,
                                    Some(fresh(n)),
                                ),
                            ),
                            n + 2,
                            Some(n + 1),
                        ),
                    )
                },
                None => Ok(
                    (
                        add_fresh(
                            s,
                            n,
                            image_obj(img.width, img.height, img.color_space, img.filter, img.data, None),
                        ),
                        n + 1,
                        Some(n),
                    ),
                ),
            },
        },
    }
}

/// The Form XObject that shows the appearance.
pub open spec fn form_obj(app: Appearance, font_id: int, image_id: Option<int>) -> Obj {
    let fonts = put(Seq::<(Seq<u8>, Obj)>::empty(), utf8(font_name(app.font)), Obj::Reference(fresh(font_id)));
    let resources = put(Seq::<(Seq<u8>, Obj)>::empty(), lit("Font"), Obj::Dictionary(fonts));
    let resources = match image_id {
        Some(i) => put(
            resources,
            lit("XObject"),
            Obj::Dictionary(put(Seq::<(Seq<u8>, Obj)>::empty(), lit("Img"), Obj::Reference(fresh(i)))),
        ),
        None => resources,
    };
    let d = Seq::<(Seq<u8>, Obj)>::empty();
    let d = put(d, lit("Type"), Obj::Name(lit("XObject")));
    let d = put(d, lit("Subtype"), Obj::Name(lit("Form")));
    let d = put(d, lit("FormType"), Obj::Integer(1));
    let d = put(
        d,
        lit("BBox"),
        Obj::Array(
            seq![
                zero_real(),
                zero_real(),
                Obj::Real(app.width.bits, app.width.text@),
                Obj::Real(app.height.bits, app.height.text@),
            ],
        ),
    );
    let d = put(d, lit("Resources"), Obj::Dictionary(resources));
    stream_obj(d, content_bytes(app, font_name(app.font), image_id is Some))
}

/// The items with all objects of the appearance among them, from object number
/// `n` on, the next free number and the number of the Form XObject.
pub open spec fn appearance_added(s: Seq<Item>, n: int, app: Appearance) -> Result<(Seq<Item>, int, int), ErrorView> {
    match font_added(s, n, app.font) {
        Err(e) => Err(e),
        Ok((s1, n1)) => match image_added(s1, n1, app.image) {
            Err(e) => Err(e),
            Ok((s2, n2, img)) => Ok((add_fresh(s2, n2, form_obj(app, n, img)), n2 + 1, n2)),
        },
    }
}

fn add_font(inc: &mut Incremental, next_id: &mut u64, app: &Appearance) -> (r: Result<ObjectId, Error>)
    requires
        old(inc).wf(),
        *old(next_id) <= u64::MAX - 3,
    ensures
        final(inc).wf(),
        final(inc).base() == old(inc).base(),
        match font_added(old(inc)@, *old(next_id) as int, app.font) {
            Ok((s, n)) => r is Ok && r->Ok_0 == fresh(*old(next_id) as int) && final(inc)@ == s && *final(next_id) == n
                && n <= *old(next_id) + 3,
            Err(e) => r is Err && r->Err_0@ == e,
        },
{
    let font_id: ObjectId = alloc_id(next_id);
    match &app.font {
        Some(bytes) => {
            let descriptor_id: ObjectId = alloc_id(next_id);
            let fontfile_id: ObjectId = alloc_id(next_id);
            match build_embedded_font(bytes, descriptor_id, fontfile_id) {
                Err(e) => {
                    return Err(e);
                },
                Ok((font, descriptor, fontfile)) => {
                    inc.add(font_id, font);
                    inc.add(descriptor_id, descriptor);
                    inc.add(fontfile_id, fontfile);
                },
            }
        },
        None => {
            inc.add(font_id, helvetica());
        },
    }
    Ok(font_id)
}

fn add_image(inc: &mut Incremental, next_id: &mut u64, app: &Appearance) -> (r: Result<Option<ObjectId>, Error>)
    requires
        old(inc).wf(),
        *old(next_id) <= u64::MAX - 2,
    ensures
        final(inc).wf(),
        final(inc).base() == old(inc).base(),
        match image_added(old(inc)@, *old(next_id) as int, app.image) {
            Ok((s, n, img)) => r is Ok && final(inc)@ == s && *final(next_id) == n && n <= *old(next_id) + 2
                && r->Ok_0 == (match img {
                Some(i) => Some(fresh(i)),
                None => None,
            }),
            Err(e) => r is Err && r->Err_0@ == e,
        },
{
    match &app.image {
        None => Ok(None),
        Some(bytes) => match decode_image(bytes) {
            Err(e) => Err(e),
            Ok(img) => {
                let EmbeddedImage { width, height, color_space, filter, data, smask } = img;
                let smask_ref: Option<ObjectId> = match smask {
                    Some(sm) => {
                        let id: ObjectId = alloc_id(next_id);
                        inc.add(id, image_stream(width, height, "DeviceGray", "FlateDecode", sm, None));
                        Some(id)
                    },
                    None => None,
                };
                let id: ObjectId = alloc_id(next_id);
                inc.add(id, image_stream(width, height, color_space, filter, data, smask_ref));
                Ok(Some(id))
            },
        },
    }
}

/// Build every object the appearance needs (font, optional image + soft mask,
/// and the Form XObject), add them to `inc`, and return the Form XObject id.
pub fn add_appearance(inc: &mut Incremental, next_id: &mut u64, app: &Appearance) -> (r: Result<ObjectId, Error>)
    requires
        old(inc).wf(),
        *old(next_id) <= u64::MAX - APPEARANCE_OBJECTS,
    ensures
        final(inc).wf(),
        final(inc).base() == old(inc).base(),
        match appearance_added(old(inc)@, *old(next_id) as int, *app) {
            Ok((s, n, form)) => r is Ok && r->Ok_0 == fresh(form) && final(inc)@ == s && *final(next_id) == n && n
                <= *old(next_id) + APPEARANCE_OBJECTS,
            Err(e) => r is Err && r->Err_0@ == e,
        },
{
    let font_id: ObjectId = match add_font(inc, next_id, app) {
        Err(e) => {
            return Err(e);
        },
        Ok(id) => id,
    };
    let image: Option<ObjectId> = match add_image(inc, next_id, app) {
        Err(e) => {
            return Err(e);
        },
        Ok(id) => id,
    };
    let font_name: &str = if app.font.is_some() { "EmbFont" } else { "Helv" };

    let mut fonts: Dictionary = Dictionary::new();
    fonts.set(font_name, Object::Reference(font_id));
    let mut resources: Dictionary = Dictionary::new();
    resources.set("Font", Object::Dictionary(fonts));
    if let Some(img_id) = image {
        let mut xobjects: Dictionary = Dictionary::new();
        xobjects.set("Img", Object::Reference(img_id));
        resources.set("XObject", Object::Dictionary(xobjects));
    }

    let mut xobj: Dictionary = Dictionary::new();
    xobj.set("Type", name_object("XObject"));
    xobj.set("Subtype", name_object("Form"));
    xobj.set("FormType", Object::Integer(1));
    xobj.set("BBox", array4(zero(), zero(), real_object(&app.width), real_object(&app.height)));
    xobj.set("Resources", Object::Dictionary(resources));

    let content: Vec<u8> = build_content(app, font_name, image.is_some());
    let xobj_id: ObjectId = alloc_id(next_id);
    inc.add(xobj_id, new_stream(xobj, content));
    Ok(xobj_id)
}

} // verus!
