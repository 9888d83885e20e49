//! The saved form of a radar grid.

use vstd::prelude::*;

use crate::double::Double;

verus! {

/// A radar grid: reflectivity codes row by row, and where the grid lies.
#[derive(Debug)]
pub struct RadarGrid {
    pub codes: Vec<u8>,
    pub width: u32,
    pub height: u32,
    /// Easting and northing of the centre of the first cell.
    pub tie_x: Double,
    pub tie_y: Double,
    /// The size of a cell in metres.
    pub scale_x: Double,
    pub scale_y: Double,
}

/// What a grid holds.
#[verifier::ext_equal]
pub struct GridModel {
    pub codes: Seq<u8>,
    pub width: u32,
    pub height: u32,
    pub tie_x: Double,
    pub tie_y: Double,
    pub scale_x: Double,
    pub scale_y: Double,
}

impl View for RadarGrid {
    type V = GridModel;

    open spec fn view(&self) -> GridModel {
        GridModel {
            codes: self.codes@,
            width: self.width,
            height: self.height,
            tie_x: self.tie_x,
            tie_y: self.tie_y,
            scale_x: self.scale_x,
            scale_y: self.scale_y,
        }
    }
}

impl GridModel {
    /// Whether there is a code for each cell.
    pub open spec fn complete(self) -> bool {
        self.codes.len() == self.width * self.height
    }
}

/// A number in `n` bytes, the lowest first.
pub open spec fn le_bytes(x: nat, n: nat) -> Seq<u8>
    decreases n,
{
    if n == 0 {
        Seq::empty()
    } else {
        seq![(x % 256) as u8] + le_bytes(x / 256, (n - 1) as nat)
    }
}

/// The number that bytes stand for, the lowest first.
pub open spec fn le_value(s: Seq<u8>) -> nat
    decreases s.len(),
{
    if s.len() == 0 {
        0
    } else {
        s[0] as nat + 256 * le_value(s.drop_first())
    }
}

/// `256^n`.
pub open spec fn byte_range(n: nat) -> nat
    decreases n,
{
    if n == 0 {
        1
    } else {
        256 * byte_range((n - 1) as nat)
    }
}

/// Numbers survive being written in bytes.
pub proof fn bytes_round_trip(x: nat, n: nat)
    requires
        x < byte_range(n),
    ensures
        le_bytes(x, n).len() == n,
        le_value(le_bytes(x, n)) == x,
    decreases n,
{
    if n > 0 {
        bytes_round_trip(x / 256, (n - 1) as nat);
        let s = le_bytes(x, n);
        assert(s.drop_first() =~= le_bytes(x / 256, (n - 1) as nat));
    }
}

proof fn lemma_le_len(x: nat, n: nat)
    ensures
        le_bytes(x, n).len() == n,
    decreases n,
{
    if n > 0 {
        lemma_le_len(x / 256, (n - 1) as nat);
    }
}

proof fn lemma_le_value_bound(s: Seq<u8>)
    ensures
        le_value(s) < byte_range(s.len()),
    decreases s.len(),
{
    if s.len() > 0 {
        lemma_le_value_bound(s.drop_first());
    }
}

fn put_le(out: &mut Vec<u8>, x: u64, n: usize)
    ensures
        final(out)@ == old(out)@ + le_bytes(x as nat, n as nat),
    decreases n,
{
    if n > 0 {
        let ghost before = out@;
        out.push((x % 256) as u8);
        put_le(out, x / 256, n - 1);
        assert(out@ =~= before + le_bytes(x as nat, n as nat));
    } else {
        assert(out@ + le_bytes(x as nat, 0) =~= out@);
    }
}

fn get_le(bytes: &[u8], at: usize, n: usize) -> (x: u64)
    requires
        n <= 8,
        at + n <= bytes.len(),
    ensures
        x == le_value(bytes@.subrange(at as int, at + n)),
        x < byte_range(n as nat),
    decreases n,
{
    let ghost s = bytes@.subrange(at as int, at + n);
    proof {
        lemma_le_value_bound(s);
    }
    if n == 0 {
        return 0;
    }
    let rest: u64 = get_le(bytes, at + 1, n - 1);
    proof {
        assert(s.drop_first() =~= bytes@.subrange(at + 1, at + n));
        reveal_with_fuel(byte_range, 9);
    }
    bytes[at] as u64 + 256 * rest
}

/// The first four bytes of a saved grid, which also tell its version: `FRD1`.
pub open spec fn frd_magic() -> Seq<u8> {
    seq![0x46u8, 0x52, 0x44, 0x31]
}

/// The length of what stands before the codes.
pub const FRD_HEADER_LEN: usize = 44;

/// What stands before the codes: the magic, the width and the height, and
/// where the grid lies.
pub open spec fn frd_header(g: GridModel) -> Seq<u8> {
    frd_magic() + le_bytes(g.width as nat, 4) + le_bytes(g.height as nat, 4) + le_bytes(
        g.tie_x.bits as nat,
        8,
    ) + le_bytes(g.tie_y.bits as nat, 8) + le_bytes(g.scale_x.bits as nat, 8) + le_bytes(
        g.scale_y.bits as nat,
        8,
    )
}

/// Why a grid cannot be saved or read.
#[derive(Debug, Clone, Copy, PartialEq, Eq, Structural)]
pub enum FrdError {
    /// The codes could not be compressed.
    Compress,
    /// It is no saved grid, or one of another version.
    BadMagic,
    /// The codes could not be decompressed.
    Decompress,
    /// There is not one code for each cell.
    Length,
}

/// What compressed bytes hold, none where they are no zstd frames.
pub uninterp spec fn zstd_decoded(bytes: Seq<u8>) -> Option<Seq<u8>>;

/// What bytes are compressed to at a level, none where they cannot be.
pub uninterp spec fn zstd_encoded(bytes: Seq<u8>, level: i32) -> Option<Seq<u8>>;

/// How hard the codes are compressed: lightly.
pub const FRD_ZSTD_LEVEL: i32 = 1;

/// `zstd::encode_all` compresses bytes, as the bytes and the level alone decide,
/// to something that `zstd::decode_all` gives back, or fails.
#[verifier::external_body]
fn compress(bytes: &[u8], level: i32) -> (r: Option<Vec<u8>>)
    ensures
        match r {
            Some(p) => zstd_encoded(bytes@, level) == Some(p@) && zstd_decoded(p@) == Some(bytes@),
            None => zstd_encoded(bytes@, level) is None,
        },
{
    zstd::encode_all(bytes, level).ok()
}

/// `zstd::decode_all` decompresses bytes, or fails.
#[verifier::external_body]
fn decompress(bytes: &[u8]) -> (r: Option<Vec<u8>>)
    ensures
        match r {
            Some(d) => zstd_decoded(bytes@) == Some(d@),
            None => zstd_decoded(bytes@) is None,
        },
{
    zstd::decode_all(bytes).ok()
}

/// The grid of saved bytes.
pub open spec fn frd_grid(b: Seq<u8>) -> Result<GridModel, FrdError> {
    if b.len() < FRD_HEADER_LEN || b.take(4) != frd_magic() {
        Err(FrdError::BadMagic)
    } else {
        match zstd_decoded(b.skip(44)) {
            None => Err(FrdError::Decompress),
            Some(codes) => {
                let g = GridModel {
                    codes,
                    width: le_value(b.subrange(4, 8)) as u32,
                    height: le_value(b.subrange(8, 12)) as u32,
                    tie_x: Double { bits: le_value(b.subrange(12, 20)) as u64 },
                    tie_y: Double { bits: le_value(b.subrange(20, 28)) as u64 },
                    scale_x: Double { bits: le_value(b.subrange(28, 36)) as u64 },
                    scale_y: Double { bits: le_value(b.subrange(36, 44)) as u64 },
                };
                if g.complete() {
                    Ok(g)
                } else {
                    Err(FrdError::Length)
                }
            },
        }
    }
}

/// Whether bytes are a grid's saved form.
pub open spec fn is_frd_of(b: Seq<u8>, g: GridModel) -> bool {
    &&& b.len() >= FRD_HEADER_LEN
    &&& b.take(44) == frd_header(g)
    &&& zstd_decoded(b.skip(44)) == Some(g.codes)
}

/// Put what stands before the codes and the compressed codes together, where
/// they could be compressed.
pub fn join_frd(grid: &RadarGrid, payload: Option<Vec<u8>>) -> (r: Result<Vec<u8>, FrdError>)
    ensures
        match payload {
            Some(p) => r matches Ok(b) && b@ == frd_header(grid@) + p@,
            None => r == Err::<Vec<u8>, _>(FrdError::Compress),
        },
{
    let mut payload = match payload {
        Some(p) => p,
        None => {
            return Err(FrdError::Compress);
        },
    };
    let mut out: Vec<u8> = Vec::new();
    out.push(0x46);
    out.push(0x52);
    out.push(0x44);
    out.push(0x31);
    assert(out@ =~= frd_magic());
    put_le(&mut out, grid.width as u64, 4);
    put_le(&mut out, grid.height as u64, 4);
    put_le(&mut out, grid.tie_x.bits, 8);
    put_le(&mut out, grid.tie_y.bits, 8);
    put_le(&mut out, grid.scale_x.bits, 8);
    put_le(&mut out, grid.scale_y.bits, 8);
    out.append(&mut payload);
    Ok(out)
}

/// Save a grid.
pub fn encode_frd(grid: &RadarGrid) -> (r: Result<Vec<u8>, FrdError>)
    ensures
        match zstd_encoded(grid.codes@, FRD_ZSTD_LEVEL) {
            Some(p) => r matches Ok(b) && b@ == frd_header(grid@) + p && is_frd_of(b@, grid@),
            None => r == Err::<Vec<u8>, _>(FrdError::Compress),
        },
{
    let payload = compress(grid.codes.as_slice(), FRD_ZSTD_LEVEL);
    let ghost p = payload;
    let r = join_frd(grid, payload);
    proof {
        lemma_header_len(grid@);
        if r is Ok {
            assert((r->Ok_0)@.take(44) =~= frd_header(grid@));
            assert((r->Ok_0)@.skip(44) =~= (p->0)@);
        }
    }
    r
}

proof fn lemma_header_len(g: GridModel)
    ensures
        frd_header(g).len() == 44,
{
    lemma_le_len(g.width as nat, 4);
    lemma_le_len(g.height as nat, 4);
    lemma_le_len(g.tie_x.bits as nat, 8);
    lemma_le_len(g.tie_y.bits as nat, 8);
    lemma_le_len(g.scale_x.bits as nat, 8);
    lemma_le_len(g.scale_y.bits as nat, 8);
}

fn tail(bytes: &[u8], from: usize) -> (r: Vec<u8>)
    requires
        from <= bytes.len(),
    ensures
        r@ == bytes@.skip(from as int),
{
    let mut r: Vec<u8> = Vec::new();
    let mut i: usize = from;
    while i < bytes.len()
        invariant
            from <= i <= bytes.len(),
            r@ == bytes@.subrange(from as int, i as int),
        decreases bytes.len() - i,
    {
        assert(bytes@.subrange(from as int, i + 1) =~= bytes@.subrange(
            from as int,
            i as int,
        ).push(bytes@[i as int]));
        r.push(bytes[i]);
        i = i + 1;
    }
    assert(r@ =~= bytes@.skip(from as int));
    r
}

/// Read a saved grid.
pub fn decode_frd(bytes: &[u8]) -> (r: Result<RadarGrid, FrdError>)
    ensures
        match r {
            Ok(g) => frd_grid(bytes@) == Ok::<_, FrdError>(g@),
            Err(e) => frd_grid(bytes@) == Err::<GridModel, _>(e),
        },
{
    if bytes.len() < FRD_HEADER_LEN {
        return Err(FrdError::BadMagic);
    }
    let magic = bytes[0] == 0x46 && bytes[1] == 0x52 && bytes[2] == 0x44 && bytes[3] == 0x31;
    proof {
        let m = bytes@.take(4);
        assert(m[0] == bytes@[0] && m[1] == bytes@[1] && m[2] == bytes@[2] && m[3] == bytes@[3]);
        if magic {
            assert(m =~= frd_magic());
        } else {
            assert(frd_magic()[0] == 0x46 && frd_magic()[1] == 0x52 && frd_magic()[2] == 0x44
                && frd_magic()[3] == 0x31);
        }
        reveal_with_fuel(byte_range, 9);
    }
    if !magic {
        return Err(FrdError::BadMagic);
    }
    let width: u32 = get_le(bytes, 4, 4) as u32;
    let height: u32 = get_le(bytes, 8, 4) as u32;
    let tie_x = Double::from_bits(get_le(bytes, 12, 8));
    let tie_y = Double::from_bits(get_le(bytes, 20, 8));
    let scale_x = Double::from_bits(get_le(bytes, 28, 8));
    let scale_y = Double::from_bits(get_le(bytes, 36, 8));
    let payload = tail(bytes, FRD_HEADER_LEN);
    let codes = match decompress(payload.as_slice()) {
        Some(c) => c,
        None => {
            return Err(FrdError::Decompress);
        },
    };
    proof {
        assert(width * height <= 0xffff_ffff * 0xffff_ffff) by (nonlinear_arith)
            requires
                width <= 0xffff_ffff,
                height <= 0xffff_ffff,
        ;
    }
    let expected: u64 = width as u64 * height as u64;
    if codes.len() as u64 != expected {
        return Err(FrdError::Length);
    }
    Ok(RadarGrid { codes, width, height, tie_x, tie_y, scale_x, scale_y })
}

/// A grid with a code for each cell is read as it was saved.
pub proof fn saved_grids_come_back(g: GridModel, b: Seq<u8>)
    requires
        g.complete(),
        is_frd_of(b, g),
    ensures
        frd_grid(b) == Ok::<_, FrdError>(g),
{
    lemma_header_len(g);
    lemma_le_len(g.width as nat, 4);
    lemma_le_len(g.height as nat, 4);
    lemma_le_len(g.tie_x.bits as nat, 8);
    lemma_le_len(g.tie_y.bits as nat, 8);
    lemma_le_len(g.scale_x.bits as nat, 8);
    lemma_le_len(g.scale_y.bits as nat, 8);
    reveal_with_fuel(byte_range, 9);
    bytes_round_trip(g.width as nat, 4);
    bytes_round_trip(g.height as nat, 4);
    bytes_round_trip(g.tie_x.bits as nat, 8);
    bytes_round_trip(g.tie_y.bits as nat, 8);
    bytes_round_trip(g.scale_x.bits as nat, 8);
    bytes_round_trip(g.scale_y.bits as nat, 8);
    let h = frd_header(g);
    assert(b.take(4) =~= h.take(4)) by {
        assert forall|i: int| 0 <= i < 4 implies b.take(4)[i] == h.take(4)[i] by {
            assert(b.take(44)[i] == h[i]);
        }
    }
    assert(h.take(4) =~= frd_magic());
    lemma_part(b, h, 4, 8);
    lemma_part(b, h, 8, 12);
    lemma_part(b, h, 12, 20);
    lemma_part(b, h, 20, 28);
    lemma_part(b, h, 28, 36);
    lemma_part(b, h, 36, 44);
    assert(h.subrange(4, 8) =~= le_bytes(g.width as nat, 4));
    assert(h.subrange(8, 12) =~= le_bytes(g.height as nat, 4));
    assert(h.subrange(12, 20) =~= le_bytes(g.tie_x.bits as nat, 8));
    assert(h.subrange(20, 28) =~= le_bytes(g.tie_y.bits as nat, 8));
    assert(h.subrange(28, 36) =~= le_bytes(g.scale_x.bits as nat, 8));
    assert(h.subrange(36, 44) =~= le_bytes(g.scale_y.bits as nat, 8));
}

/// The four bytes from `at` on as a number, the least significant first.
pub open spec fn word_at(b: Seq<u8>, at: int) -> int {
    b[at] + 0x100 * b[at + 1] + 0x1_0000 * b[at + 2] + 0x100_0000 * b[at + 3]
}

/// The eight bytes from `at` on as a number, the least significant first.
pub open spec fn long_at(b: Seq<u8>, at: int) -> int {
    word_at(b, at) + 0x1_0000_0000 * word_at(b, at + 4)
}

/// The layout of a saved grid: `FRD1`, the width, the height, the x and the y of
/// the corner, the width and the height of a cell, and the compressed codes.
pub proof fn saved_grids_have_their_layout(b: Seq<u8>, g: GridModel)
    requires
        frd_grid(b) == Ok::<_, FrdError>(g),
    ensures
        b[0] == 0x46 && b[1] == 0x52 && b[2] == 0x44 && b[3] == 0x31,
        g.width == word_at(b, 4),
        g.height == word_at(b, 8),
        g.tie_x.bits == long_at(b, 12),
        g.tie_y.bits == long_at(b, 20),
        g.scale_x.bits == long_at(b, 28),
        g.scale_y.bits == long_at(b, 36),
        zstd_decoded(b.skip(44)) == Some(g.codes),
        g.codes.len() == g.width * g.height,
{
    assert forall|i: int| 0 <= i < 4 implies b[i] == #[trigger] frd_magic()[i] by {
        assert(b.take(4)[i] == b[i]);
    }
    assert(frd_magic()[0] == 0x46 && frd_magic()[1] == 0x52 && frd_magic()[2] == 0x44
        && frd_magic()[3] == 0x31);
    lemma_word(b, 4);
    lemma_word(b, 8);
    lemma_long(b, 12);
    lemma_long(b, 20);
    lemma_long(b, 28);
    lemma_long(b, 36);
}

/// A grid is saved in that layout.
pub proof fn grids_are_saved_in_their_layout(b: Seq<u8>, g: GridModel)
    requires
        g.complete(),
        is_frd_of(b, g),
    ensures
        b[0] == 0x46 && b[1] == 0x52 && b[2] == 0x44 && b[3] == 0x31,
        word_at(b, 4) == g.width,
        word_at(b, 8) == g.height,
        long_at(b, 12) == g.tie_x.bits,
        long_at(b, 20) == g.tie_y.bits,
        long_at(b, 28) == g.scale_x.bits,
        long_at(b, 36) == g.scale_y.bits,
        zstd_decoded(b.skip(44)) == Some(g.codes),
{
    saved_grids_come_back(g, b);
    saved_grids_have_their_layout(b, g);
}

proof fn lemma_word(b: Seq<u8>, at: int)
    requires
        0 <= at,
        at + 4 <= b.len(),
    ensures
        le_value(b.subrange(at, at + 4)) == word_at(b, at),
        0 <= word_at(b, at) < 0x1_0000_0000,
{
    let s = b.subrange(at, at + 4);
    assert(s.drop_first() =~= b.subrange(at + 1, at + 4));
    assert(s.drop_first().drop_first() =~= b.subrange(at + 2, at + 4));
    assert(s.drop_first().drop_first().drop_first() =~= b.subrange(at + 3, at + 4));
    reveal_with_fuel(le_value, 5);
}

proof fn lemma_long(b: Seq<u8>, at: int)
    requires
        0 <= at,
        at + 8 <= b.len(),
    ensures
        le_value(b.subrange(at, at + 8)) == long_at(b, at),
        0 <= long_at(b, at) < 0x1_0000_0000_0000_0000,
{
    let s = b.subrange(at, at + 8);
    assert(s.drop_first() =~= b.subrange(at + 1, at + 8));
    assert(s.drop_first().drop_first() =~= b.subrange(at + 2, at + 8));
    assert(s.drop_first().drop_first().drop_first() =~= b.subrange(at + 3, at + 8));
    assert(s.drop_first().drop_first().drop_first().drop_first() =~= b.subrange(at + 4, at + 8));
    lemma_word(b, at);
    lemma_word(b, at + 4);
    reveal_with_fuel(le_value, 5);
}

proof fn lemma_part(b: Seq<u8>, h: Seq<u8>, from: int, to: int)
    requires
        b.len() >= 44,
        h.len() == 44,
        b.take(44) == h,
        0 <= from <= to <= 44,
    ensures
        b.subrange(from, to) == h.subrange(from, to),
{
    assert forall|i: int| 0 <= i < to - from implies b.subrange(from, to)[i] == h.subrange(
        from,
        to,
    )[i] by {
        assert(b.take(44)[from + i] == h[from + i]);
    }
    assert(b.subrange(from, to) =~= h.subrange(from, to));
}

} // verus!
