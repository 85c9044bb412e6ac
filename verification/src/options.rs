//! What a signature should look like and how far it should go.
use vstd::prelude::*;

use crate::object::Real;

verus! {

/// PAdES conformance level to produce.
///
/// Levels are cumulative: each adds material on top of the previous one.
#[derive(Debug, Clone, Copy, PartialEq, Eq, PartialOrd, Ord, Default, Structural)]
pub enum PadesLevel {
    /// Baseline: CAdES `signing-certificate-v2`.
    #[default]
    Bb,
    /// B-B + an RFC 3161 signature timestamp (needs `tsa_url`).
    Bt,
    /// B-T + a Document Security Store (certificates + CRLs).
    Blt,
    /// B-LT + a document timestamp over the whole file (needs `tsa_url`).
    Blta,
}

impl PadesLevel {
    /// The place of the level in the order of levels.
    pub open spec fn rank(self) -> int {
        match self {
            PadesLevel::Bb => 0,
            PadesLevel::Bt => 1,
            PadesLevel::Blt => 2,
            PadesLevel::Blta => 3,
        }
    }

    /// Whether this level holds all that `other` asks for.
    pub fn includes(self, other: PadesLevel) -> (r: bool)
        ensures
            r == (self.rank() >= other.rank()),
    {
        match (self, other) {
            (_, PadesLevel::Bb) => true,
            (PadesLevel::Bb, _) => false,
            (_, PadesLevel::Bt) => true,
            (PadesLevel::Bt, _) => false,
            (_, PadesLevel::Blt) => true,
            (PadesLevel::Blt, _) => false,
            (PadesLevel::Blta, PadesLevel::Blta) => true,
        }
    }
}

/// Where a logo is drawn, in the box's own coordinates: numbers with two
/// decimals.
#[derive(Debug, Clone)]
pub struct ImageBox {
    pub width: String,
    pub height: String,
    pub x: String,
    pub y: String,
}

/// A visible signature appearance, rendered as the widget's `/AP /N` stream.
///
/// Coordinates are in PDF user-space points (origin at the page's bottom-left);
/// what the content stream shows of them is given with two decimals.
#[derive(Debug, Clone)]
pub struct Appearance {
    /// 1-based page number the signature box is drawn on.
    pub page: usize,
    /// Lower-left X of the box.
    pub left: Real,
    /// Lower-left Y of the box.
    pub bottom: Real,
    /// Upper-right X of the box.
    pub right: Real,
    /// Upper-right Y of the box.
    pub top: Real,
    /// Box width.
    pub width: Real,
    /// Box height.
    pub height: Real,
    /// Width of the border rectangle: one point less than the box.
    pub frame_width: String,
    /// Height of the border rectangle: one point less than the box.
    pub frame_height: String,
    /// Font size.
    pub font_size: String,
    /// Distance between two lines of text.
    pub leading: String,
    /// Height of the first line of text.
    pub first_line: String,
    /// How many characters fit in a line.
    pub max_chars: usize,
    /// Text to render. Wrapped to the box width; `\n` forces a line break.
    pub text: String,
    /// Draw a thin rectangle border around the box.
    pub border: bool,
    /// Optional TrueType/OpenType font to embed (a simple WinAnsi font). When
    /// `None`, the standard Helvetica is used.
    pub font: Option<Vec<u8>>,
    /// Optional logo image (PNG or JPEG) drawn in the box.
    pub image: Option<Vec<u8>>,
    /// Where the logo is drawn.
    pub image_box: ImageBox,
}

/// A real with the given bits and notation.
pub open spec fn is_real(r: Real, bits: u32, text: Seq<char>) -> bool {
    r.bits == bits && r.text@ == text
}

impl Default for Appearance {
    /// A box of 260 by 70 points, 36 points from the left and the lower edge of
    /// the first page, with a border and a font of eight points.
    fn default() -> (r: Self)
        ensures
            r.page == 1,
            is_real(r.left, 0x4210_0000, "36"@),
            is_real(r.bottom, 0x4210_0000, "36"@),
            is_real(r.right, 0x4394_0000, "296"@),
            is_real(r.top, 0x42d4_0000, "106"@),
            is_real(r.width, 0x4382_0000, "260"@),
            is_real(r.height, 0x428c_0000, "70"@),
            r.frame_width@ == "259.00"@,
            r.frame_height@ == "69.00"@,
            r.font_size@ == "8.00"@,
            r.leading@ == "9.60"@,
            r.first_line@ == "60.00"@,
            r.max_chars == 64,
            r.text@ == Seq::<char>::empty(),
            r.border,
            r.font is None,
            r.image is None,
            r.image_box.width@ == "66.00"@,
            r.image_box.height@ == "66.00"@,
            r.image_box.x@ == "2.00"@,
            r.image_box.y@ == "2.00"@,
    {
        Self {
            page: 1,
            left: Real { bits: 0x4210_0000, text: "36".to_owned() },
            bottom: Real { bits: 0x4210_0000, text: "36".to_owned() },
            right: Real { bits: 0x4394_0000, text: "296".to_owned() },
            top: Real { bits: 0x42d4_0000, text: "106".to_owned() },
            width: Real { bits: 0x4382_0000, text: "260".to_owned() },
            height: Real { bits: 0x428c_0000, text: "70".to_owned() },
            frame_width: "259.00".to_owned(),
            frame_height: "69.00".to_owned(),
            font_size: "8.00".to_owned(),
            leading: "9.60".to_owned(),
            first_line: "60.00".to_owned(),
            max_chars: 64,
            text: String::new(),
            border: true,
            font: None,
            image: None,
            image_box: ImageBox {
                width: "66.00".to_owned(),
                height: "66.00".to_owned(),
                x: "2.00".to_owned(),
                y: "2.00".to_owned(),
            },
        }
    }
}

/// Options controlling the signature dictionary metadata.
#[derive(Debug, Clone)]
pub struct SignOptions {
    /// Bytes reserved for the CMS blob inside `/Contents`. The hex placeholder
    /// is twice this size. Must exceed the produced signature length.
    pub signature_capacity: usize,
    /// Optional `/Reason` for signing.
    pub reason: Option<String>,
    /// Optional human `/Name` of the signer.
    pub name: Option<String>,
    /// Optional `/Location`.
    pub location: Option<String>,
    /// Optional `/ContactInfo`.
    pub contact_info: Option<String>,
    /// Optional signing time, already formatted as a PDF date, e.g.
    /// `D:20260614120000Z`.
    pub signing_time: Option<String>,
    /// Optional visible appearance. When `None`, the signature is invisible
    /// (zero-area widget).
    pub appearance: Option<Appearance>,
    /// Optional RFC 3161 Time-Stamping Authority `http://` URL. Required for
    /// `PadesLevel::Bt` and above.
    pub tsa_url: Option<String>,
    /// Target PAdES conformance level.
    pub pades_level: PadesLevel,
}

impl Default for SignOptions {
    /// A generous capacity, which fits the CMS plus an RFC 3161 timestamp token
    /// with the TSA's certificate chain, no metadata and the baseline level.
    fn default() -> (r: Self)
        ensures
            r.signature_capacity == 30000,
            r.reason is None,
            r.name is None,
            r.location is None,
            r.contact_info is None,
            r.signing_time is None,
            r.appearance is None,
            r.tsa_url is None,
            r.pades_level == PadesLevel::Bb,
    {
        Self {
            signature_capacity: 30000,
            reason: None,
            name: None,
            location: None,
            contact_info: None,
            signing_time: None,
            appearance: None,
            tsa_url: None,
            pades_level: PadesLevel::Bb,
        }
    }
}

} // verus!
