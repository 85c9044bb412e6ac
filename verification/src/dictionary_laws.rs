//! What the dictionaries of an update say, entry by entry.
use vstd::prelude::*;

use crate::appearance::{
    content_bytes, descriptor_obj, font_advance, font_name, font_obj, fontfile_obj, form_obj, image_obj,
    FontHeaderView,
};
use crate::incremental::zlib;
use crate::object::{law_put_lookup, lemma_key_index, lookup, put, Dict, Obj, ObjectId, StringFormat};
use crate::options::{Appearance, SignOptions};
use crate::scaling::scaled;
use crate::update::{doctimestamp_dict, sig_dict};
use crate::util::{lemma_lit, lit};

verus! {

proof fn lemma_puts()
    ensures
        forall|d: Dict, k: Seq<u8>, v: Obj, other: Seq<u8>| #[trigger]
            lookup(put(d, k, v), other) == (if other == k {
                Some(v)
            } else {
                lookup(d, other)
            }),
        forall|k: Seq<u8>| (#[trigger] lookup(Seq::<(Seq<u8>, Obj)>::empty(), k)) is None,
{
    assert forall|d: Dict, k: Seq<u8>, v: Obj, other: Seq<u8>| #[trigger] lookup(put(d, k, v), other) == (if other == k {
        Some(v)
    } else {
        lookup(d, other)
    }) by {
        law_put_lookup(d, k, v, other);
    }
    assert forall|k: Seq<u8>| (#[trigger] lookup(Seq::<(Seq<u8>, Obj)>::empty(), k)) is None by {
        lemma_key_index(Seq::<(Seq<u8>, Obj)>::empty(), k, 0);
    }
}

proof fn lemma_signature_keys()
    ensures
        lit("Type") != lit("Filter"),
        lit("Type") != lit("SubFilter"),
        lit("Type") != lit("ByteRange"),
        lit("Type") != lit("Contents"),
        lit("Type") != lit("Reason"),
        lit("Type") != lit("Name"),
        lit("Type") != lit("Location"),
        lit("Type") != lit("ContactInfo"),
        lit("Type") != lit("M"),
        lit("Filter") != lit("SubFilter"),
        lit("Filter") != lit("ByteRange"),
        lit("Filter") != lit("Contents"),
        lit("Filter") != lit("Reason"),
        lit("Filter") != lit("Name"),
        lit("Filter") != lit("Location"),
        lit("Filter") != lit("ContactInfo"),
        lit("Filter") != lit("M"),
        lit("SubFilter") != lit("ByteRange"),
        lit("SubFilter") != lit("Contents"),
        lit("SubFilter") != lit("Reason"),
        lit("SubFilter") != lit("Name"),
        lit("SubFilter") != lit("Location"),
        lit("SubFilter") != lit("ContactInfo"),
        lit("SubFilter") != lit("M"),
        lit("ByteRange") != lit("Contents"),
        lit("ByteRange") != lit("Reason"),
        lit("ByteRange") != lit("Name"),
        lit("ByteRange") != lit("Location"),
        lit("ByteRange") != lit("ContactInfo"),
        lit("ByteRange") != lit("M"),
        lit("Contents") != lit("Reason"),
        lit("Contents") != lit("Name"),
        lit("Contents") != lit("Location"),
        lit("Contents") != lit("ContactInfo"),
        lit("Contents") != lit("M"),
        lit("Reason") != lit("Name"),
        lit("Reason") != lit("Location"),
        lit("Reason") != lit("ContactInfo"),
        lit("Reason") != lit("M"),
        lit("Name") != lit("Location"),
        lit("Name") != lit("ContactInfo"),
        lit("Name") != lit("M"),
        lit("Location") != lit("ContactInfo"),
        lit("Location") != lit("M"),
        lit("ContactInfo") != lit("M"),
{
    reveal_strlit("Type");
    lemma_lit("Type");
    reveal_strlit("Filter");
    lemma_lit("Filter");
    reveal_strlit("SubFilter");
    lemma_lit("SubFilter");
    reveal_strlit("ByteRange");
    lemma_lit("ByteRange");
    reveal_strlit("Contents");
    lemma_lit("Contents");
    reveal_strlit("Reason");
    lemma_lit("Reason");
    reveal_strlit("Name");
    lemma_lit("Name");
    reveal_strlit("Location");
    lemma_lit("Location");
    reveal_strlit("ContactInfo");
    lemma_lit("ContactInfo");
    reveal_strlit("M");
    lemma_lit("M");
    assert(lit("Type")[0] == 0x54 && lit("Name")[0] == 0x4e);
    assert(lit("Filter")[0] == 0x46 && lit("Reason")[0] == 0x52);
    assert(lit("SubFilter")[0] == 0x53 && lit("ByteRange")[0] == 0x42);
    assert(lit("Contents")[0] == 0x43 && lit("Location")[0] == 0x4c);
}

proof fn lemma_image_keys()
    ensures
        lit("Type") != lit("Subtype"),
        lit("Type") != lit("Width"),
        lit("Type") != lit("Height"),
        lit("Type") != lit("ColorSpace"),
        lit("Type") != lit("BitsPerComponent"),
        lit("Type") != lit("Filter"),
        lit("Type") != lit("SMask"),
        lit("Type") != lit("Length"),
        lit("Subtype") != lit("Width"),
        lit("Subtype") != lit("Height"),
        lit("Subtype") != lit("ColorSpace"),
        lit("Subtype") != lit("BitsPerComponent"),
        lit("Subtype") != lit("Filter"),
        lit("Subtype") != lit("SMask"),
        lit("Subtype") != lit("Length"),
        lit("Width") != lit("Height"),
        lit("Width") != lit("ColorSpace"),
        lit("Width") != lit("BitsPerComponent"),
        lit("Width") != lit("Filter"),
        lit("Width") != lit("SMask"),
        lit("Width") != lit("Length"),
        lit("Height") != lit("ColorSpace"),
        lit("Height") != lit("BitsPerComponent"),
        lit("Height") != lit("Filter"),
        lit("Height") != lit("SMask"),
        lit("Height") != lit("Length"),
        lit("ColorSpace") != lit("BitsPerComponent"),
        lit("ColorSpace") != lit("Filter"),
        lit("ColorSpace") != lit("SMask"),
        lit("ColorSpace") != lit("Length"),
        lit("BitsPerComponent") != lit("Filter"),
        lit("BitsPerComponent") != lit("SMask"),
        lit("BitsPerComponent") != lit("Length"),
        lit("Filter") != lit("SMask"),
        lit("Filter") != lit("Length"),
        lit("SMask") != lit("Length"),
{
    reveal_strlit("Type");
    lemma_lit("Type");
    reveal_strlit("Subtype");
    lemma_lit("Subtype");
    reveal_strlit("Width");
    lemma_lit("Width");
    reveal_strlit("Height");
    lemma_lit("Height");
    reveal_strlit("ColorSpace");
    lemma_lit("ColorSpace");
    reveal_strlit("BitsPerComponent");
    lemma_lit("BitsPerComponent");
    reveal_strlit("Filter");
    lemma_lit("Filter");
    reveal_strlit("SMask");
    lemma_lit("SMask");
    reveal_strlit("Length");
    lemma_lit("Length");
    assert(lit("Width")[0] == 0x57 && lit("SMask")[0] == 0x53);
    assert(lit("Height")[0] == 0x48 && lit("Filter")[0] == 0x46);
    assert(lit("Height")[0] == 0x48 && lit("Length")[0] == 0x4c);
    assert(lit("Filter")[0] == 0x46 && lit("Length")[0] == 0x4c);
}

proof fn lemma_font_keys()
    ensures
        lit("Type") != lit("Subtype"),
        lit("Type") != lit("BaseFont"),
        lit("Type") != lit("FirstChar"),
        lit("Type") != lit("LastChar"),
        lit("Type") != lit("Widths"),
        lit("Type") != lit("Encoding"),
        lit("Type") != lit("FontDescriptor"),
        lit("Subtype") != lit("BaseFont"),
        lit("Subtype") != lit("FirstChar"),
        lit("Subtype") != lit("LastChar"),
        lit("Subtype") != lit("Widths"),
        lit("Subtype") != lit("Encoding"),
        lit("Subtype") != lit("FontDescriptor"),
        lit("BaseFont") != lit("FirstChar"),
        lit("BaseFont") != lit("LastChar"),
        lit("BaseFont") != lit("Widths"),
        lit("BaseFont") != lit("Encoding"),
        lit("BaseFont") != lit("FontDescriptor"),
        lit("FirstChar") != lit("LastChar"),
        lit("FirstChar") != lit("Widths"),
        lit("FirstChar") != lit("Encoding"),
        lit("FirstChar") != lit("FontDescriptor"),
        lit("LastChar") != lit("Widths"),
        lit("LastChar") != lit("Encoding"),
        lit("LastChar") != lit("FontDescriptor"),
        lit("Widths") != lit("Encoding"),
        lit("Widths") != lit("FontDescriptor"),
        lit("Encoding") != lit("FontDescriptor"),
{
    reveal_strlit("Type");
    lemma_lit("Type");
    reveal_strlit("Subtype");
    lemma_lit("Subtype");
    reveal_strlit("BaseFont");
    lemma_lit("BaseFont");
    reveal_strlit("FirstChar");
    lemma_lit("FirstChar");
    reveal_strlit("LastChar");
    lemma_lit("LastChar");
    reveal_strlit("Widths");
    lemma_lit("Widths");
    reveal_strlit("Encoding");
    lemma_lit("Encoding");
    reveal_strlit("FontDescriptor");
    lemma_lit("FontDescriptor");
    assert(lit("BaseFont")[0] == 0x42 && lit("LastChar")[0] == 0x4c);
    assert(lit("BaseFont")[0] == 0x42 && lit("Encoding")[0] == 0x45);
    assert(lit("LastChar")[0] == 0x4c && lit("Encoding")[0] == 0x45);
}

proof fn lemma_descriptor_keys()
    ensures
        lit("Type") != lit("FontName"),
        lit("Type") != lit("Flags"),
        lit("Type") != lit("FontBBox"),
        lit("Type") != lit("ItalicAngle"),
        lit("Type") != lit("Ascent"),
        lit("Type") != lit("Descent"),
        lit("Type") != lit("CapHeight"),
        lit("Type") != lit("StemV"),
        lit("Type") != lit("FontFile2"),
        lit("FontName") != lit("Flags"),
        lit("FontName") != lit("FontBBox"),
        lit("FontName") != lit("ItalicAngle"),
        lit("FontName") != lit("Ascent"),
        lit("FontName") != lit("Descent"),
        lit("FontName") != lit("CapHeight"),
        lit("FontName") != lit("StemV"),
        lit("FontName") != lit("FontFile2"),
        lit("Flags") != lit("FontBBox"),
        lit("Flags") != lit("ItalicAngle"),
        lit("Flags") != lit("Ascent"),
        lit("Flags") != lit("Descent"),
        lit("Flags") != lit("CapHeight"),
        lit("Flags") != lit("StemV"),
        lit("Flags") != lit("FontFile2"),
        lit("FontBBox") != lit("ItalicAngle"),
        lit("FontBBox") != lit("Ascent"),
        lit("FontBBox") != lit("Descent"),
        lit("FontBBox") != lit("CapHeight"),
        lit("FontBBox") != lit("StemV"),
        lit("FontBBox") != lit("FontFile2"),
        lit("ItalicAngle") != lit("Ascent"),
        lit("ItalicAngle") != lit("Descent"),
        lit("ItalicAngle") != lit("CapHeight"),
        lit("ItalicAngle") != lit("StemV"),
        lit("ItalicAngle") != lit("FontFile2"),
        lit("Ascent") != lit("Descent"),
        lit("Ascent") != lit("CapHeight"),
        lit("Ascent") != lit("StemV"),
        lit("Ascent") != lit("FontFile2"),
        lit("Descent") != lit("CapHeight"),
        lit("Descent") != lit("StemV"),
        lit("Descent") != lit("FontFile2"),
        lit("CapHeight") != lit("StemV"),
        lit("CapHeight") != lit("FontFile2"),
        lit("StemV") != lit("FontFile2"),
{
    reveal_strlit("Type");
    lemma_lit("Type");
    reveal_strlit("FontName");
    lemma_lit("FontName");
    reveal_strlit("Flags");
    lemma_lit("Flags");
    reveal_strlit("FontBBox");
    lemma_lit("FontBBox");
    reveal_strlit("ItalicAngle");
    lemma_lit("ItalicAngle");
    reveal_strlit("Ascent");
    lemma_lit("Ascent");
    reveal_strlit("Descent");
    lemma_lit("Descent");
    reveal_strlit("CapHeight");
    lemma_lit("CapHeight");
    reveal_strlit("StemV");
    lemma_lit("StemV");
    reveal_strlit("FontFile2");
    lemma_lit("FontFile2");
    assert(lit("FontName")[4] == 0x4e && lit("FontBBox")[4] == 0x42);
    assert(lit("Flags")[0] == 0x46 && lit("StemV")[0] == 0x53);
    assert(lit("CapHeight")[0] == 0x43 && lit("FontFile2")[0] == 0x46);
}

proof fn lemma_form_keys()
    ensures
        lit("Type") != lit("Subtype"),
        lit("Type") != lit("FormType"),
        lit("Type") != lit("BBox"),
        lit("Type") != lit("Resources"),
        lit("Type") != lit("Length"),
        lit("Type") != lit("Font"),
        lit("Type") != lit("XObject"),
        lit("Type") != lit("Img"),
        lit("Type") != lit("N"),
        lit("Type") != lit("Length1"),
        lit("Type") != lit("Filter"),
        lit("Subtype") != lit("FormType"),
        lit("Subtype") != lit("BBox"),
        lit("Subtype") != lit("Resources"),
        lit("Subtype") != lit("Length"),
        lit("Subtype") != lit("Font"),
        lit("Subtype") != lit("XObject"),
        lit("Subtype") != lit("Img"),
        lit("Subtype") != lit("N"),
        lit("Subtype") != lit("Length1"),
        lit("Subtype") != lit("Filter"),
        lit("FormType") != lit("BBox"),
        lit("FormType") != lit("Resources"),
        lit("FormType") != lit("Length"),
        lit("FormType") != lit("Font"),
        lit("FormType") != lit("XObject"),
        lit("FormType") != lit("Img"),
        lit("FormType") != lit("N"),
        lit("FormType") != lit("Length1"),
        lit("FormType") != lit("Filter"),
        lit("BBox") != lit("Resources"),
        lit("BBox") != lit("Length"),
        lit("BBox") != lit("Font"),
        lit("BBox") != lit("XObject"),
        lit("BBox") != lit("Img"),
        lit("BBox") != lit("N"),
        lit("BBox") != lit("Length1"),
        lit("BBox") != lit("Filter"),
        lit("Resources") != lit("Length"),
        lit("Resources") != lit("Font"),
        lit("Resources") != lit("XObject"),
        lit("Resources") != lit("Img"),
        lit("Resources") != lit("N"),
        lit("Resources") != lit("Length1"),
        lit("Resources") != lit("Filter"),
        lit("Length") != lit("Font"),
        lit("Length") != lit("XObject"),
        lit("Length") != lit("Img"),
        lit("Length") != lit("N"),
        lit("Length") != lit("Length1"),
        lit("Length") != lit("Filter"),
        lit("Font") != lit("XObject"),
        lit("Font") != lit("Img"),
        lit("Font") != lit("N"),
        lit("Font") != lit("Length1"),
        lit("Font") != lit("Filter"),
        lit("XObject") != lit("Img"),
        lit("XObject") != lit("N"),
        lit("XObject") != lit("Length1"),
        lit("XObject") != lit("Filter"),
        lit("Img") != lit("N"),
        lit("Img") != lit("Length1"),
        lit("Img") != lit("Filter"),
        lit("N") != lit("Length1"),
        lit("N") != lit("Filter"),
        lit("Length1") != lit("Filter"),
{
    reveal_strlit("Type");
    lemma_lit("Type");
    reveal_strlit("Subtype");
    lemma_lit("Subtype");
    reveal_strlit("FormType");
    lemma_lit("FormType");
    reveal_strlit("BBox");
    lemma_lit("BBox");
    reveal_strlit("Resources");
    lemma_lit("Resources");
    reveal_strlit("Length");
    lemma_lit("Length");
    reveal_strlit("Font");
    lemma_lit("Font");
    reveal_strlit("XObject");
    lemma_lit("XObject");
    reveal_strlit("Img");
    lemma_lit("Img");
    reveal_strlit("N");
    lemma_lit("N");
    reveal_strlit("Length1");
    lemma_lit("Length1");
    reveal_strlit("Filter");
    lemma_lit("Filter");
    assert(lit("Type")[0] == 0x54 && lit("BBox")[0] == 0x42);
    assert(lit("Type")[0] == 0x54 && lit("Font")[0] == 0x46);
    assert(lit("Subtype")[0] == 0x53 && lit("XObject")[0] == 0x58);
    assert(lit("Subtype")[0] == 0x53 && lit("Length1")[0] == 0x4c);
    assert(lit("BBox")[0] == 0x42 && lit("Font")[0] == 0x46);
    assert(lit("Length")[0] == 0x4c && lit("Filter")[0] == 0x46);
    assert(lit("XObject")[0] == 0x58 && lit("Length1")[0] == 0x4c);
}

// ---------------------------------------------------------------------------
// Signatures

/// An entry is a literal string with the text in UTF-8 where there is a text, and missing
/// where there is none.
pub open spec fn says(d: Dict, key: Seq<u8>, text: Option<String>) -> bool {
    match text {
        Some(t) => lookup(d, key) == Some(Obj::String(crate::util::utf8(t@), StringFormat::Literal)),
        None => lookup(d, key) is None,
    }
}

/// The entries that every signature has: its filters, a byte range to be patched and
/// contents of as many zeros as the capacity.
pub open spec fn is_signature_head(d: Dict, kind: Seq<u8>, subfilter: Seq<u8>, capacity: nat) -> bool {
    &&& lookup(d, lit("Type")) == Some(Obj::Name(kind))
    &&& lookup(d, lit("Filter")) == Some(Obj::Name(lit("Adobe.PPKLite")))
    &&& lookup(d, lit("SubFilter")) == Some(Obj::Name(subfilter))
    &&& lookup(d, lit("ByteRange")) matches Some(Obj::Array(a)) && a.len() == 4 && a[0] == Obj::Integer(0)
    &&& lookup(d, lit("Contents")) matches Some(Obj::String(c, f)) && f is Hexadecimal && c.len() == capacity
        && forall|i: int| 0 <= i < c.len() ==> #[trigger] c[i] == 0
}

/// The dictionary of a signature says who signed why, where and when, each as it was given
/// and nothing that was not given; it is a detached CAdES signature.
pub proof fn law_signature_says_what_was_given(opts: SignOptions)
    ensures
        sig_dict(opts) matches Obj::Dictionary(d) && {
            &&& is_signature_head(d, lit("Sig"), lit("ETSI.CAdES.detached"), opts.signature_capacity as nat)
            &&& says(d, lit("Reason"), opts.reason)
            &&& says(d, lit("Name"), opts.name)
            &&& says(d, lit("Location"), opts.location)
            &&& says(d, lit("ContactInfo"), opts.contact_info)
            &&& says(d, lit("M"), opts.signing_time)
        },
{
    lemma_puts();
    lemma_signature_keys();
}

/// The dictionary of a document timestamp says what it is, and nothing of a signer.
pub proof fn law_timestamp_says_what_it_is(capacity: nat)
    ensures
        doctimestamp_dict(capacity) matches Obj::Dictionary(d) && {
            &&& is_signature_head(d, lit("DocTimeStamp"), lit("ETSI.RFC3161"), capacity)
            &&& lookup(d, lit("Reason")) is None && lookup(d, lit("Name")) is None && lookup(d, lit("Location")) is None
            &&& lookup(d, lit("ContactInfo")) is None && lookup(d, lit("M")) is None
        },
{
    lemma_puts();
    lemma_signature_keys();
}

// ---------------------------------------------------------------------------
// Appearances

/// An image object: its size, colour space, filter and data, and the mask where it has one.
pub proof fn law_image_object(
    width: u32,
    height: u32,
    color_space: Seq<char>,
    filter: Seq<char>,
    data: Seq<u8>,
    smask: Option<ObjectId>,
)
    ensures
        image_obj(width, height, color_space, filter, data, smask) matches Obj::Stream(d, content) && {
            &&& content == data
            &&& lookup(d, lit("Subtype")) == Some(Obj::Name(lit("Image")))
            &&& lookup(d, lit("Width")) == Some(Obj::Integer(width as i64))
            &&& lookup(d, lit("Height")) == Some(Obj::Integer(height as i64))
            &&& lookup(d, lit("BitsPerComponent")) == Some(Obj::Integer(8))
            &&& lookup(d, lit("ColorSpace")) == Some(Obj::Name(crate::util::utf8(color_space)))
            &&& lookup(d, lit("Filter")) == Some(Obj::Name(crate::util::utf8(filter)))
            &&& data.len() <= i64::MAX ==> lookup(d, lit("Length")) == Some(Obj::Integer(data.len() as i64))
            &&& lookup(d, lit("SMask")) == (match smask {
                Some(id) => Some(Obj::Reference(id)),
                None => None,
            })
        },
{
    lemma_puts();
    lemma_image_keys();
}

/// An embedded font: a TrueType font with the width of each WinAnsi character from 32 to
/// 255, zero where the font has no such character, and a descriptor.
pub proof fn law_font_object(font: Seq<u8>, upem: u16, descriptor: ObjectId, i: int)
    ensures
        font_obj(font, upem, descriptor) matches Obj::Dictionary(d) && {
            &&& lookup(d, lit("Subtype")) == Some(Obj::Name(lit("TrueType")))
            &&& lookup(d, lit("Encoding")) == Some(Obj::Name(lit("WinAnsiEncoding")))
            &&& lookup(d, lit("FirstChar")) == Some(Obj::Integer(32))
            &&& lookup(d, lit("LastChar")) == Some(Obj::Integer(255))
            &&& lookup(d, lit("FontDescriptor")) == Some(Obj::Reference(descriptor))
            &&& lookup(d, lit("Widths")) matches Some(Obj::Array(w)) && w.len() == 224 && (32 <= i <= 255 ==> w[i - 32]
                == Obj::Integer(
                (match font_advance(font, i as u8 as char) {
                    Some(a) => scaled(a as int, upem as nat),
                    None => scaled(0, upem as nat),
                }) as i64,
            ))
        },
{
    lemma_puts();
    lemma_font_keys();
}

/// The descriptor of an embedded font: the measures of its header in thousandths of an em,
/// and the font's program. A font that leans is marked as such, and one without a height of
/// capitals takes the ascent for it.
pub proof fn law_font_descriptor(h: FontHeaderView, program: ObjectId)
    ensures
        descriptor_obj(h, program) matches Obj::Dictionary(d) && {
            let upem = h.units_per_em as nat;
            &&& lookup(d, lit("FontFile2")) == Some(Obj::Reference(program))
            &&& lookup(d, lit("Ascent")) == Some(Obj::Integer(scaled(h.ascender as int, upem) as i64))
            &&& lookup(d, lit("Descent")) == Some(Obj::Integer(scaled(h.descender as int, upem) as i64))
            &&& lookup(d, lit("CapHeight")) == Some(
                Obj::Integer(
                    (match h.capital_height {
                        Some(c) => scaled(c as int, upem),
                        None => scaled(h.ascender as int, upem),
                    }) as i64,
                ),
            )
            &&& lookup(d, lit("ItalicAngle")) == Some(Obj::Real(h.italic_bits, h.italic_text))
            &&& lookup(d, lit("Flags")) == Some(
                Obj::Integer(
                    if h.italic_bits == 0 || h.italic_bits == 0x8000_0000 {
                        32
                    } else {
                        96
                    },
                ),
            )
            &&& lookup(d, lit("FontBBox")) matches Some(Obj::Array(b)) && b.len() == 4 && b[0] == Obj::Integer(
                scaled(h.x_min as int, upem) as i64,
            ) && b[1] == Obj::Integer(scaled(h.y_min as int, upem) as i64) && b[2] == Obj::Integer(
                scaled(h.x_max as int, upem) as i64,
            ) && b[3] == Obj::Integer(scaled(h.y_max as int, upem) as i64)
        },
{
    lemma_puts();
    lemma_descriptor_keys();
}

/// The program of an embedded font is the font, compressed.
pub proof fn law_font_program(font: Seq<u8>)
    ensures
        fontfile_obj(font) matches Obj::Stream(d, content) && content == zlib(font) && lookup(d, lit("Filter")) == Some(
            Obj::Name(lit("FlateDecode")),
        ) && (font.len() <= i64::MAX ==> lookup(d, lit("Length1")) == Some(Obj::Integer(font.len() as i64))),
{
    lemma_puts();
    lemma_form_keys();
}

/// The form that shows an appearance: a box of its width and height, with its own font
/// and, where there is one, its logo as resources.
pub proof fn law_form_object(app: Appearance, font: int, image: Option<int>)
    ensures
        form_obj(app, font, image) matches Obj::Stream(d, content) && {
            &&& content == content_bytes(app, font_name(app.font), image is Some)
            &&& lookup(d, lit("Subtype")) == Some(Obj::Name(lit("Form")))
            &&& lookup(d, lit("BBox")) matches Some(Obj::Array(b)) && b.len() == 4 && b[2] == Obj::Real(
                app.width.bits,
                app.width.text@,
            ) && b[3] == Obj::Real(app.height.bits, app.height.text@)
            &&& lookup(d, lit("Resources")) matches Some(Obj::Dictionary(r)) && {
                &&& lookup(r, lit("Font")) matches Some(Obj::Dictionary(f)) && lookup(
                    f,
                    crate::util::utf8(
                        if app.font is Some {
                            "EmbFont"@
                        } else {
                            "Helv"@
                        },
                    ),
                ) == Some(Obj::Reference((font as u32, 0u16)))
                &&& match image {
                    Some(i) => lookup(r, lit("XObject")) matches Some(Obj::Dictionary(x)) && lookup(x, lit("Img"))
                        == Some(Obj::Reference((i as u32, 0u16))),
                    None => lookup(r, lit("XObject")) is None,
                }
            }
        },
{
    lemma_puts();
    lemma_form_keys();
}

} // verus!
