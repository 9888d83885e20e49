//! Radar composites as they are published: reflectivity in a TIFF image with
//! its place on the map.

use std::io::Cursor;
use tiff::decoder::ifd::Value;
use tiff::decoder::{Decoder, DecodingResult};
use tiff::tags::Tag;
use vstd::prelude::*;

use crate::dbz::{code_of, dbz_to_code, encodes, encoding_is_unique, DbzError};
use crate::directory::{has_moderate_size, of_moderate_size};
use crate::double::{
    is_whole, single_magnitude, whole, widen, widens, Double, SIGN_BIT, SINGLE_INFINITY_BITS,
};
use crate::frd::{GridModel, RadarGrid};

verus! {

/// Why an image is of no use.
#[derive(Debug, Clone, Copy, PartialEq, Eq, Structural)]
pub enum GeotiffError {
    /// It announces more values than are read.
    TooLarge,
    /// It is no TIFF image.
    NotTiff,
    /// It does not say where it lies.
    NoTiepoint,
    /// It does not say how large its cells are.
    NoPixelScale,
    /// Its values cannot be read.
    Unreadable,
    /// Its values are of a type that reflectivity does not come in.
    UnsupportedType,
    /// It has fewer values than cells.
    TooFewValues,
    /// A value cannot be encoded.
    Value(DbzError),
}

/// The number of the tag that says where an image lies.
pub const TIEPOINT_TAG: u16 = 33922;

/// The number of the tag that says how large its cells are.
pub const PIXEL_SCALE_TAG: u16 = 33550;

/// The number of the tag that says how many values a cell has.
pub const SAMPLES_TAG: u16 = 277;

/// The number of the tag that says whether the values of a cell stand together
/// (1) or in planes (2).
pub const PLANAR_TAG: u16 = 284;

/// The width and the height of an image.
pub uninterp spec fn tiff_size(bytes: Seq<u8>) -> Option<(u32, u32)>;

/// `Decoder::new` with `Decoder::dimensions` gives the size of an image, or
/// fails where it is none. `Decoder::new` multiplies the sizes of the first
/// directory unchecked, here and below, so these are bounded.
#[verifier::external_body]
fn read_size(bytes: &[u8]) -> (r: Option<(u32, u32)>)
    requires
        of_moderate_size(bytes@),
    ensures
        r == tiff_size(bytes@),
{
    Decoder::new(Cursor::new(bytes)).ok()?.dimensions().ok()
}

/// A value of a tag.
#[derive(Debug, Clone, Copy, PartialEq, Eq, Structural)]
pub enum TagNumber {
    /// A double, by its bit pattern.
    Double(u64),
    /// A number in single precision, by its bit pattern.
    Single(u32),
    Unsigned(u32),
    Signed(i32),
    /// Something else.
    Other,
}

/// The values of a tag: nothing where the tag cannot be read, and no list where
/// it holds no list.
pub uninterp spec fn tiff_numbers(bytes: Seq<u8>, tag: u16) -> Option<Option<Seq<TagNumber>>>;

pub open spec fn numbers_model(r: Option<Option<Vec<TagNumber>>>) -> Option<
    Option<Seq<TagNumber>>,
> {
    match r {
        Some(Some(v)) => Some(Some(v@)),
        Some(None) => Some(None),
        None => None,
    }
}

/// `Decoder::get_tag` gives a tag's values.
#[verifier::external_body]
fn read_numbers(bytes: &[u8], tag: u16) -> (r: Option<Option<Vec<TagNumber>>>)
    requires
        of_moderate_size(bytes@),
    ensures
        numbers_model(r) == tiff_numbers(bytes@, tag),
{
    let mut decoder = Decoder::new(Cursor::new(bytes)).ok()?;
    Some(match decoder.get_tag(Tag::from_u16_exhaustive(tag)).ok()? {
        Value::List(list) => Some(list.into_iter().map(|v| match v {
            Value::Double(x) => TagNumber::Double(x.to_bits()),
            Value::Float(x) => TagNumber::Single(x.to_bits()),
            Value::Short(x) => TagNumber::Unsigned(x.into()),
            Value::Unsigned(x) => TagNumber::Unsigned(x),
            Value::Signed(x) => TagNumber::Signed(x),
            Value::Byte(x) => TagNumber::Unsigned(x.into()),
            _ => TagNumber::Other,
        }).collect()),
        _ => None,
    })
}

/// The values of an image.
#[derive(Debug)]
pub enum Pixels {
    /// In single precision, by their bit patterns.
    Singles(Vec<u32>),
    Unsigned(Vec<u16>),
    Signed(Vec<i16>),
    /// Of another type.
    Other,
}

/// What the values of an image are. A pattern that is not a number is none.
pub enum PixelsModel {
    Singles(Seq<Option<u32>>),
    Unsigned(Seq<u16>),
    Signed(Seq<i16>),
    Other,
}

/// Whether a pattern in single precision is not a number.
pub open spec fn single_nan(bits: u32) -> bool {
    single_magnitude(bits) > SINGLE_INFINITY_BITS
}

/// The values of an image, nothing where they cannot be read.
pub uninterp spec fn tiff_pixels(bytes: Seq<u8>) -> Option<PixelsModel>;

pub open spec fn pixels_model(r: Option<Pixels>) -> Option<PixelsModel> {
    match r {
        Some(Pixels::Singles(v)) => Some(
            PixelsModel::Singles(
                v@.map_values(
                    |bits: u32|
                        if single_nan(bits) {
                            None
                        } else {
                            Some(bits)
                        },
                ),
            ),
        ),
        Some(Pixels::Unsigned(v)) => Some(PixelsModel::Unsigned(v@)),
        Some(Pixels::Signed(v)) => Some(PixelsModel::Signed(v@)),
        Some(Pixels::Other) => Some(PixelsModel::Other),
        None => None,
    }
}

/// `Decoder::read_image` gives the values of an image. Doubles are rounded to
/// single precision; which pattern stands for what is not a number is left
/// unsaid. Values in lossless JPEG are meant as read on a machine that puts the
/// least significant byte first.
#[verifier::external_body]
fn read_pixels(bytes: &[u8]) -> (r: Option<Pixels>)
    requires
        of_moderate_size(bytes@),
    ensures
        pixels_model(r) == tiff_pixels(bytes@),
{
    let values = match Decoder::new(Cursor::new(bytes)).ok()?.read_image().ok()? {
        DecodingResult::F32(b) => b,
        DecodingResult::F64(b) => b.into_iter().map(|v| v as _).collect(),
        DecodingResult::U16(b) => return Some(Pixels::Unsigned(b)),
        DecodingResult::I16(b) => return Some(Pixels::Signed(b)),
        _ => return Some(Pixels::Other),
    };
    Some(Pixels::Singles(values.iter().map(|v| v.to_bits()).collect()))
}

/// The number of a tag, none where there is none or it does not fit.
pub uninterp spec fn tiff_unsigned(bytes: Seq<u8>, tag: u16) -> Option<u16>;

/// `Decoder::find_tag_unsigned` gives the number of a tag.
#[verifier::external_body]
fn read_unsigned(bytes: &[u8], tag: u16) -> (r: Option<u16>)
    requires
        of_moderate_size(bytes@),
    ensures
        r == tiff_unsigned(bytes@, tag),
{
    let mut decoder = Decoder::new(Cursor::new(bytes)).ok()?;
    decoder.find_tag_unsigned::<u16>(Tag::from_u16_exhaustive(tag)).ok().flatten()
}

/// What was read of an image.
#[derive(Debug)]
pub struct TiffParts {
    pub size: Option<(u32, u32)>,
    pub tiepoint: Option<Option<Vec<TagNumber>>>,
    pub pixel_scale: Option<Option<Vec<TagNumber>>>,
    pub pixels: Option<Pixels>,
    pub samples: Option<u16>,
    pub planar: Option<u16>,
}

/// How far apart the first values of two cells stand: together with the other
/// values of the cell, or in a plane of their own.
pub open spec fn stride(samples: Option<u16>, planar: Option<u16>) -> int {
    match samples {
        Some(n) => if n <= 1 || planar == Some(2u16) {
            1
        } else {
            n as int
        },
        None => 1,
    }
}

/// Whether a double is the value of a tag; what is no number counts as zero.
pub open spec fn is_number(d: Double, t: TagNumber) -> bool {
    match t {
        TagNumber::Double(bits) => d == Double { bits },
        TagNumber::Single(bits) => widens(bits, d),
        TagNumber::Unsigned(n) => is_whole(d, n as int),
        TagNumber::Signed(n) => is_whole(d, n as int),
        TagNumber::Other => d == Double { bits: 0 },
    }
}

/// The magnitude of a number.
pub open spec fn absolute(d: Double) -> Double {
    Double { bits: if d.negative() { (d.bits - SIGN_BIT) as u64 } else { d.bits } }
}

/// Whether a double is the magnitude of the value of a tag.
pub open spec fn is_size(d: Double, t: TagNumber) -> bool {
    exists|x: Double| #[trigger] is_number(x, t) && d == absolute(x)
}

impl Pixels {
    /// How many values there are.
    pub open spec fn count(self) -> nat {
        match self {
            Pixels::Singles(v) => v@.len(),
            Pixels::Unsigned(v) => v@.len(),
            Pixels::Signed(v) => v@.len(),
            Pixels::Other => 0,
        }
    }

    /// Whether a double is the `i`-th value.
    pub open spec fn is_value(self, i: int, d: Double) -> bool {
        match self {
            Pixels::Singles(v) => widens(v@[i], d),
            Pixels::Unsigned(v) => is_whole(d, v@[i] as int),
            Pixels::Signed(v) => is_whole(d, v@[i] as int),
            Pixels::Other => false,
        }
    }

    fn len(&self) -> (n: usize)
        ensures
            n == self.count(),
    {
        match self {
            Pixels::Singles(v) => v.len(),
            Pixels::Unsigned(v) => v.len(),
            Pixels::Signed(v) => v.len(),
            Pixels::Other => 0,
        }
    }

    fn value(&self, i: usize) -> (d: Double)
        requires
            i < self.count(),
        ensures
            self.is_value(i as int, d),
    {
        match self {
            Pixels::Singles(v) => widen(v[i]),
            Pixels::Unsigned(v) => whole(v[i] as i64),
            Pixels::Signed(v) => whole(v[i] as i64),
            Pixels::Other => Double::from_bits(0),
        }
    }
}

/// Whether `codes` are those of the first `n` cells.
pub open spec fn are_codes(codes: Seq<u8>, pixels: Pixels, stride: int, n: int) -> bool {
    codes.len() == n && forall|i: int|
        0 <= i < n ==> encoded(pixels, stride, i) == Ok::<u8, DbzError>(#[trigger] codes[i])
}

/// The code of a cell.
pub open spec fn encoded(pixels: Pixels, stride: int, i: int) -> Result<u8, DbzError> {
    code_of_value(pixels, i * stride)
}

/// The code of a value. One that is not a number has the code of what is not
/// detected, whichever double stands for it.
pub open spec fn code_of_value(pixels: Pixels, i: int) -> Result<u8, DbzError> {
    code_of(choose|d: Double| pixels.is_value(i, d))
}

pub open spec fn grid_model(r: Result<RadarGrid, GeotiffError>) -> Result<
    GridModel,
    GeotiffError,
> {
    match r {
        Ok(g) => Ok(g@),
        Err(e) => Err(e),
    }
}

/// Whether `r` is what an image comes to.
pub open spec fn reads_as(p: TiffParts, r: Result<GridModel, GeotiffError>) -> bool {
    match (p.size, p.tiepoint, p.pixel_scale, p.pixels) {
        (None, _, _, _) => r == Err::<GridModel, _>(GeotiffError::NotTiff),
        (Some((w, h)), tie, scale, pixels) => {
            let s = stride(p.samples, p.planar);
            let n = w * h;
            if !(tie matches Some(Some(t)) && t.len() >= 6) {
                r == Err::<GridModel, _>(GeotiffError::NoTiepoint)
            } else if !(scale matches Some(Some(t)) && t.len() >= 2) {
                r == Err::<GridModel, _>(GeotiffError::NoPixelScale)
            } else if pixels is None {
                r == Err::<GridModel, _>(GeotiffError::Unreadable)
            } else if pixels->0 is Other {
                r == Err::<GridModel, _>(GeotiffError::UnsupportedType)
            } else {
                let values = pixels->0;
                let t = ((tie->0)->0)@;
                let c = ((scale->0)->0)@;
                if values.count() < n * s {
                    r == Err::<GridModel, _>(GeotiffError::TooFewValues)
                } else {
                    match r {
                        Ok(g) => {
                            &&& g.width == w
                            &&& g.height == h
                            &&& is_number(g.tie_x, t[3])
                            &&& is_number(g.tie_y, t[4])
                            &&& is_size(g.scale_x, c[0])
                            &&& is_size(g.scale_y, c[1])
                            &&& are_codes(g.codes, values, s, n)
                        },
                        Err(e) => exists|i: int|
                            0 <= i < n && #[trigger] encoded(values, s, i) is Err && e
                                == GeotiffError::Value(encoded(values, s, i)->Err_0) && forall|j: int|
                                0 <= j < i ==> #[trigger] encoded(values, s, j) is Ok,
                    }
                }
            }
        },
    }
}

/// A value is encoded as any double of it.
proof fn lemma_value(pixels: Pixels, i: int, d: Double, r: Result<u8, DbzError>)
    requires
        pixels.is_value(i, d),
        crate::dbz::encodes(d, r),
    ensures
        code_of_value(pixels, i) == r,
{
    let w = choose|d: Double| pixels.is_value(i, d);
    assert(pixels.is_value(i, w));
    crate::dbz::same_number_same_code(d, w, r);
    encoding_is_unique(w, r);
}

fn to_number(t: TagNumber) -> (d: Double)
    ensures
        is_number(d, t),
{
    match t {
        TagNumber::Double(bits) => Double::from_bits(bits),
        TagNumber::Single(bits) => widen(bits),
        TagNumber::Unsigned(n) => whole(n as i64),
        TagNumber::Signed(n) => whole(n as i64),
        TagNumber::Other => Double::from_bits(0),
    }
}

fn to_size(t: TagNumber) -> (d: Double)
    ensures
        is_size(d, t),
{
    let x = to_number(t);
    if x.bits >= SIGN_BIT {
        Double::from_bits(x.bits - SIGN_BIT)
    } else {
        x
    }
}

/// Make the grid of what was read of an image.
#[verifier::loop_isolation(false)]
pub fn grid_of_parts(p: &TiffParts) -> (r: Result<RadarGrid, GeotiffError>)
    ensures
        reads_as(*p, grid_model(r)),
{
    let (width, height): (u32, u32) = match p.size {
        Some(s) => s,
        None => {
            return Err(GeotiffError::NotTiff);
        },
    };
    let (tie_x, tie_y) = match &p.tiepoint {
        Some(Some(t)) => {
            if t.len() < 6 {
                return Err(GeotiffError::NoTiepoint);
            }
            (to_number(t[3]), to_number(t[4]))
        },
        _ => {
            return Err(GeotiffError::NoTiepoint);
        },
    };
    let (scale_x, scale_y) = match &p.pixel_scale {
        Some(Some(c)) => {
            if c.len() < 2 {
                return Err(GeotiffError::NoPixelScale);
            }
            (to_size(c[0]), to_size(c[1]))
        },
        _ => {
            return Err(GeotiffError::NoPixelScale);
        },
    };
    let values: &Pixels = match &p.pixels {
        Some(Pixels::Other) => {
            return Err(GeotiffError::UnsupportedType);
        },
        Some(v) => v,
        None => {
            return Err(GeotiffError::Unreadable);
        },
    };
    let step: u16 = match p.samples {
        Some(n) => {
            let planes = match p.planar {
                Some(k) => k == 2,
                None => false,
            };
            if n <= 1 || planes {
                1
            } else {
                n
            }
        },
        None => 1,
    };
    let ghost s = stride(p.samples, p.planar);
    assert(step == s);
    proof {
        assert(width * height <= 0xffff_ffff * 0xffff_ffff) by (nonlinear_arith)
            requires
                width <= 0xffff_ffff,
                height <= 0xffff_ffff,
        ;
        assert((width * height) * step <= 0xffff_ffff * 0xffff_ffff * 0xffff) by (nonlinear_arith)
            requires
                0 <= width * height <= 0xffff_ffff * 0xffff_ffff,
                0 <= step <= 0xffff,
        ;
    }
    let cells: u64 = width as u64 * height as u64;
    let expected: u128 = cells as u128 * step as u128;
    if (values.len() as u128) < expected {
        return Err(GeotiffError::TooFewValues);
    }
    proof {
        assert(cells <= cells * step) by (nonlinear_arith)
            requires
                step >= 1,
                cells >= 0,
        ;
    }
    let n: usize = cells as usize;
    let mut codes: Vec<u8> = Vec::new();
    let mut i: usize = 0;
    while i < n
        invariant
            i <= n,
            step == s,
            s >= 1,
            n * s <= values.count(),
            codes.len() == i,
            forall|k: int|
                0 <= k < i ==> encoded(*values, s, k) == Ok::<u8, DbzError>(#[trigger] codes[k]),
            forall|k: int| 0 <= k < i ==> #[trigger] encoded(*values, s, k) is Ok,
        decreases n - i,
    {
        proof {
            assert(i * s < n * s) by (nonlinear_arith)
                requires
                    i < n,
                    s >= 1,
            ;
            assert(i * s >= 0) by (nonlinear_arith)
                requires
                    i >= 0,
                    s >= 1,
            ;
        }
        let d = values.value(i * step as usize);
        let code = dbz_to_code(d);
        proof {
            lemma_value(*values, i * s, d, code);
            assert(encoded(*values, s, i as int) == code);
        }
        match code {
            Ok(c) => {
                codes.push(c);
            },
            Err(e) => {
                assert(encoded(*values, s, i as int) is Err);
                return Err(GeotiffError::Value(e));
            },
        }
        i = i + 1;
    }
    Ok(RadarGrid { codes, width, height, tie_x, tie_y, scale_x, scale_y })
}

/// Whether the parts are those of an image.
pub open spec fn are_parts_of(p: TiffParts, bytes: Seq<u8>) -> bool {
    &&& p.size == tiff_size(bytes)
    &&& numbers_model(p.tiepoint) == tiff_numbers(bytes, TIEPOINT_TAG)
    &&& numbers_model(p.pixel_scale) == tiff_numbers(bytes, PIXEL_SCALE_TAG)
    &&& pixels_model(p.pixels) == tiff_pixels(bytes)
    &&& p.samples == tiff_unsigned(bytes, SAMPLES_TAG)
    &&& p.planar == tiff_unsigned(bytes, PLANAR_TAG)
}

/// Whether `r` is what the bytes of an image come to.
pub open spec fn image_reads_as(bytes: Seq<u8>, r: Result<GridModel, GeotiffError>) -> bool {
    if of_moderate_size(bytes) {
        exists|p: TiffParts| #[trigger] are_parts_of(p, bytes) && reads_as(p, r)
    } else {
        r == Err::<GridModel, _>(GeotiffError::TooLarge)
    }
}

/// Read a radar grid from an image.
pub fn parse_geotiff(bytes: &[u8]) -> (r: Result<RadarGrid, GeotiffError>)
    ensures
        image_reads_as(bytes@, grid_model(r)),
{
    if !has_moderate_size(bytes) {
        return Err(GeotiffError::TooLarge);
    }
    let p = TiffParts {
        size: read_size(bytes),
        tiepoint: read_numbers(bytes, TIEPOINT_TAG),
        pixel_scale: read_numbers(bytes, PIXEL_SCALE_TAG),
        pixels: read_pixels(bytes),
        samples: read_unsigned(bytes, SAMPLES_TAG),
        planar: read_unsigned(bytes, PLANAR_TAG),
    };
    let r = grid_of_parts(&p);
    assert(are_parts_of(p, bytes@));
    r
}

/// A grid is of the image's size and lies where its tags say: its corner is at
/// the fourth and the fifth number of the tie point, and its cells are as wide
/// and as high as the first and the second number of the pixel scale.
pub proof fn grids_lie_where_their_tags_say(p: TiffParts, g: GridModel)
    requires
        reads_as(p, Ok(g)),
    ensures
        p.size == Some((g.width, g.height)),
        p.tiepoint matches Some(Some(t)) && t@.len() >= 6 && (t@[3] matches TagNumber::Double(x)
            ==> g.tie_x.bits == x) && (t@[4] matches TagNumber::Double(y) ==> g.tie_y.bits == y),
        p.pixel_scale matches Some(Some(c)) && c@.len() >= 2 && (c@[0] matches TagNumber::Double(w)
            ==> absolute((Double { bits: w })) == g.scale_x) && (c@[1] matches TagNumber::Double(h)
            ==> absolute((Double { bits: h })) == g.scale_y),
{
}

/// The code of a cell is that of its first value: the values stand in the order
/// of the cells, those of one cell together unless each has a plane of its own.
pub proof fn cells_have_the_codes_of_their_values(
    p: TiffParts,
    g: GridModel,
    i: int,
    d: Double,
    r: Result<u8, DbzError>,
)
    requires
        reads_as(p, Ok(g)),
        0 <= i < g.width * g.height,
        encodes(d, r),
    ensures
        (p.samples is None || p.samples == Some(1u16) || p.planar == Some(2u16))
            && p.pixels->0.is_value(i, d) ==> r == Ok::<u8, DbzError>(g.codes[i]),
        p.samples matches Some(n) && n > 1 && p.planar != Some(2u16) && p.pixels->0.is_value(
            i * n,
            d,
        ) ==> r == Ok::<u8, DbzError>(g.codes[i]),
{
    let values = p.pixels->0;
    let s = stride(p.samples, p.planar);
    assert(encoded(values, s, i) == Ok::<u8, DbzError>(g.codes[i]));
    assert(i * 1 == i);
    if values.is_value(i * s, d) {
        lemma_value(values, i * s, d, r);
    }
}

/// A grid that an image comes to has a code for each cell.
pub proof fn grids_are_complete(bytes: Seq<u8>, g: GridModel)
    requires
        image_reads_as(bytes, Ok(g)),
    ensures
        g.complete(),
{
}

} // verus!
