//! The sizes that a TIFF image announces in its first directory.

use vstd::prelude::*;

verus! {

/// The most values that an image may announce: its width times its height times
/// the number of values of a cell. Larger images do not fit into what their
/// reader may allocate, and its products of these numbers would overflow.
pub const MOST_VALUES: u64 = 0x7fff_ffff;

pub const WIDTH_TAG: u64 = 256;

pub const HEIGHT_TAG: u64 = 257;

pub const SAMPLES_PER_CELL_TAG: u64 = 277;

/// A number by its bytes, the most significant first.
pub open spec fn number(b: Seq<u8>) -> nat
    decreases b.len(),
{
    if b.len() == 0 {
        0
    } else {
        number(b.drop_last()) * 256 + b.last() as nat
    }
}

/// How the bytes of a file are read: whether the least significant byte of a
/// number comes first, and whether the places are 64 bits wide.
#[derive(Debug, Clone, Copy, PartialEq, Eq, Structural)]
pub struct Layout {
    pub little: bool,
    pub wide: bool,
}

/// The number in the `n` bytes from place `at` on, none past the end.
pub open spec fn field(b: Seq<u8>, little: bool, at: int, n: int) -> Option<nat> {
    if 0 <= at && at + n <= b.len() {
        let s = b.subrange(at, at + n);
        Some(
            number(
                if little {
                    s.reverse()
                } else {
                    s
                },
            ),
        )
    } else {
        None
    }
}

/// How a file is read and where its first directory lies.
pub open spec fn heading(b: Seq<u8>) -> Option<(Layout, nat)> {
    if b.len() < 2 || b[0] != b[1] || !(b[0] == 0x49 || b[0] == 0x4d) {
        None
    } else {
        let little = b[0] == 0x49;
        let version = field(b, little, 2, 2);
        if version == Some(42nat) {
            match field(b, little, 4, 4) {
                Some(at) => Some((Layout { little, wide: false }, at)),
                None => None,
            }
        } else if version == Some(43nat) && field(b, little, 4, 2) == Some(8nat) && field(
            b,
            little,
            6,
            2,
        ) == Some(0nat) {
            match field(b, little, 8, 8) {
                Some(at) => Some((Layout { little, wide: true }, at)),
                None => None,
            }
        } else {
            None
        }
    }
}

/// Whether a number stands for a type of values.
pub open spec fn known_type(t: nat) -> bool {
    1 <= t <= 13 || 16 <= t <= 18
}

/// The number that the entry at `at` holds, where it holds one that is not
/// negative and whole.
pub open spec fn held(b: Seq<u8>, l: Layout, at: int, t: nat) -> Option<nat> {
    let place = at + if l.wide {
        12int
    } else {
        8
    };
    let count = if l.wide {
        field(b, l.little, at + 4, 8)
    } else {
        field(b, l.little, at + 4, 4)
    };
    if count != Some(1nat) {
        None
    } else if t == 1 {
        field(b, l.little, place, 1)
    } else if t == 3 {
        field(b, l.little, place, 2)
    } else if t == 4 || t == 13 {
        field(b, l.little, place, 4)
    } else if t == 16 || t == 18 {
        if l.wide {
            field(b, l.little, place, 8)
        } else {
            match field(b, l.little, place, 4) {
                Some(far) => field(b, l.little, far as int, 8),
                None => None,
            }
        }
    } else {
        None
    }
}

/// The sizes among the entries of a directory.
pub struct Sizes {
    pub width: Option<nat>,
    pub height: Option<nat>,
    pub samples: Option<nat>,
}

impl Sizes {
    /// These sizes after one entry more; a later entry counts.
    pub open spec fn with(self, tag: nat, v: Option<nat>) -> Sizes {
        if tag == WIDTH_TAG {
            Sizes { width: v, ..self }
        } else if tag == HEIGHT_TAG {
            Sizes { height: v, ..self }
        } else if tag == SAMPLES_PER_CELL_TAG {
            Sizes { samples: v, ..self }
        } else {
            self
        }
    }

    /// Whether the image that they announce has not too many values.
    pub open spec fn moderate(self) -> bool {
        match (self.width, self.height) {
            (Some(w), Some(h)) => w * h * (match self.samples {
                Some(n) => n,
                None => 1,
            }) <= MOST_VALUES,
            _ => true,
        }
    }
}

/// The sizes after the `left` entries from `at` on, none where the file ends
/// before. An entry of an unknown type is passed over, as one of twelve bytes.
pub open spec fn sizes_after(b: Seq<u8>, l: Layout, at: int, left: nat, s: Sizes) -> Option<Sizes>
    decreases left,
{
    if left == 0 {
        Some(s)
    } else {
        match (field(b, l.little, at, 2), field(b, l.little, at + 2, 2)) {
            (Some(tag), Some(t)) => {
                let next = at + if l.wide && known_type(t) {
                    20int
                } else {
                    12
                };
                if next > b.len() {
                    None
                } else {
                    sizes_after(
                        b,
                        l,
                        next,
                        (left - 1) as nat,
                        if known_type(t) {
                            s.with(tag, held(b, l, at, t))
                        } else {
                            s
                        },
                    )
                }
            },
            _ => None,
        }
    }
}

pub open spec fn no_sizes() -> Sizes {
    Sizes { width: None, height: None, samples: None }
}

/// The sizes in the first directory of a file, none where it has none that is
/// whole.
pub open spec fn announced(b: Seq<u8>) -> Option<Sizes> {
    match heading(b) {
        Some((l, at)) => if l.wide {
            match field(b, l.little, at as int, 8) {
                Some(n) => sizes_after(b, l, at + 8int, n, no_sizes()),
                None => None,
            }
        } else {
            match field(b, l.little, at as int, 2) {
                Some(n) => sizes_after(b, l, at + 2int, n, no_sizes()),
                None => None,
            }
        },
        None => None,
    }
}

/// Whether a file announces no image with too many values.
pub open spec fn of_moderate_size(b: Seq<u8>) -> bool {
    announced(b) matches Some(s) ==> s.moderate()
}

spec fn power(n: nat) -> nat
    decreases n,
{
    if n == 0 {
        1
    } else {
        256 * power((n - 1) as nat)
    }
}

proof fn lemma_number(b: Seq<u8>)
    ensures
        number(b) < power(b.len()),
    decreases b.len(),
{
    if b.len() > 0 {
        lemma_number(b.drop_last());
    }
}

proof fn lemma_power(n: nat)
    requires
        n <= 8,
    ensures
        power(n) <= 0x1_0000_0000_0000_0000,
{
    reveal_with_fuel(power, 9);
}

fn read_field(b: &[u8], little: bool, at: u64, n: usize) -> (r: Option<u64>)
    requires
        n <= 8,
    ensures
        match r {
            Some(v) => field(b@, little, at as int, n as int) == Some(v as nat),
            None => field(b@, little, at as int, n as int) is None,
        },
{
    if at > b.len() as u64 || n > b.len() - at as usize {
        return None;
    }
    let at = at as usize;
    let ghost s = b@.subrange(at as int, at + n);
    let ghost s = if little {
        s.reverse()
    } else {
        s
    };
    let mut v: u64 = 0;
    let mut k: usize = 0;
    while k < n
        invariant
            k <= n <= 8,
            at + n <= b.len(),
            s.len() == n,
            forall|i: int|
                0 <= i < n ==> #[trigger] s[i] == b@[if little {
                    at + n - 1 - i
                } else {
                    at + i
                }],
            v == number(s.take(k as int)),
        decreases n - k,
    {
        let i: usize = if little {
            at + n - 1 - k
        } else {
            at + k
        };
        proof {
            assert(s.take(k + 1).drop_last() =~= s.take(k as int));
            assert(s.take(k + 1).last() == s[k as int]);
            lemma_number(s.take(k + 1));
            lemma_power((k + 1) as nat);
        }
        v = v * 256 + b[i] as u64;
        k = k + 1;
    }
    assert(s.take(n as int) =~= s);
    Some(v)
}

fn read_heading(b: &[u8]) -> (r: Option<(Layout, u64)>)
    ensures
        match r {
            Some((l, at)) => heading(b@) == Some((l, at as nat)),
            None => heading(b@) is None,
        },
{
    if b.len() < 2 || b[0] != b[1] || !(b[0] == 0x49 || b[0] == 0x4d) {
        return None;
    }
    let little = b[0] == 0x49;
    match read_field(b, little, 2, 2) {
        Some(42) => match read_field(b, little, 4, 4) {
            Some(at) => Some((Layout { little, wide: false }, at)),
            None => None,
        },
        Some(43) => match (
            read_field(b, little, 4, 2),
            read_field(b, little, 6, 2),
            read_field(b, little, 8, 8),
        ) {
            (Some(8), Some(0), Some(at)) => Some((Layout { little, wide: true }, at)),
            _ => None,
        },
        _ => None,
    }
}

spec fn same(a: Option<u64>, b: Option<nat>) -> bool {
    match a {
        Some(v) => b == Some(v as nat),
        None => b is None,
    }
}

fn read_held(b: &[u8], l: Layout, at: u64, t: u64) -> (r: Option<u64>)
    requires
        at + (if l.wide {
            20int
        } else {
            12
        }) <= b.len(),
    ensures
        same(r, held(b@, l, at as int, t as nat)),
{
    let place: u64 = if l.wide {
        at + 12
    } else {
        at + 8
    };
    let count = if l.wide {
        read_field(b, l.little, at + 4, 8)
    } else {
        read_field(b, l.little, at + 4, 4)
    };
    match count {
        Some(1) => {},
        _ => {
            return None;
        },
    }
    if t == 1 {
        read_field(b, l.little, place, 1)
    } else if t == 3 {
        read_field(b, l.little, place, 2)
    } else if t == 4 || t == 13 {
        read_field(b, l.little, place, 4)
    } else if t == 16 || t == 18 {
        if l.wide {
            read_field(b, l.little, place, 8)
        } else {
            match read_field(b, l.little, place, 4) {
                Some(far) => read_field(b, l.little, far, 8),
                None => None,
            }
        }
    } else {
        None
    }
}

/// Whether no more than `MOST_VALUES` values are announced.
fn is_moderate(width: Option<u64>, height: Option<u64>, samples: Option<u64>) -> (r: bool)
    ensures
        forall|s: Sizes|
            same(width, s.width) && same(height, s.height) && same(samples, s.samples) ==> r
                == #[trigger] s.moderate(),
{
    let (w, h): (u64, u64) = match (width, height) {
        (Some(w), Some(h)) => (w, h),
        _ => {
            return true;
        },
    };
    let n: u64 = match samples {
        Some(n) => n,
        None => 1,
    };
    let most: u64 = MOST_VALUES;
    if w == 0 || h == 0 || n == 0 {
        assert(w * h * n == 0) by (nonlinear_arith)
            requires
                w == 0 || h == 0 || n == 0,
        ;
        return true;
    }
    assert(w * h * n >= w && w * h * n >= h && w * h * n >= n && w * h * n >= w * h) by (
        nonlinear_arith)
        requires
            w >= 1,
            h >= 1,
            n >= 1,
    ;
    if w > most || h > most || n > most {
        return false;
    }
    assert(w * h <= 0x7fff_ffff * 0x7fff_ffff) by (nonlinear_arith)
        requires
            0 <= w <= 0x7fff_ffff,
            0 <= h <= 0x7fff_ffff,
    ;
    let cells: u64 = w * h;
    if cells > most {
        return false;
    }
    assert(cells * n <= 0x7fff_ffff * 0x7fff_ffff) by (nonlinear_arith)
        requires
            0 <= cells <= 0x7fff_ffff,
            0 <= n <= 0x7fff_ffff,
    ;
    cells * n <= most
}

/// Whether a file announces no image with too many values.
pub fn has_moderate_size(b: &[u8]) -> (r: bool)
    ensures
        r == of_moderate_size(b@),
{
    let (l, at): (Layout, u64) = match read_heading(b) {
        Some(x) => x,
        None => {
            return true;
        },
    };
    let end: usize = b.len();
    let n: usize = if l.wide {
        8
    } else {
        2
    };
    let mut left: u64 = match read_field(b, l.little, at, n) {
        Some(n) => n,
        None => {
            return true;
        },
    };
    assert(at + n <= end);
    let mut at: u64 = at + n as u64;
    let mut width: Option<u64> = None;
    let mut height: Option<u64> = None;
    let mut samples: Option<u64> = None;
    let ghost mut s = no_sizes();
    while left > 0
        invariant
            at <= b.len(),
            announced(b@) == sizes_after(b@, l, at as int, left as nat, s),
            same(width, s.width),
            same(height, s.height),
            same(samples, s.samples),
        decreases left,
    {
        if b.len() as u64 - at < 12 {
            return true;
        }
        let (tag, t): (u64, u64) = match (
            read_field(b, l.little, at, 2),
            read_field(b, l.little, at + 2, 2),
        ) {
            (Some(tag), Some(t)) => (tag, t),
            _ => {
                return true;
            },
        };
        let known = (1 <= t && t <= 13) || (16 <= t && t <= 18);
        let step: u64 = if l.wide && known {
            20
        } else {
            12
        };
        if b.len() as u64 - at < step {
            return true;
        }
        if known {
            let v = read_held(b, l, at, t);
            proof {
                s = s.with(tag as nat, held(b@, l, at as int, t as nat));
            }
            if tag == WIDTH_TAG {
                width = v;
            } else if tag == HEIGHT_TAG {
                height = v;
            } else if tag == SAMPLES_PER_CELL_TAG {
                samples = v;
            }
        }
        at = at + step;
        left = left - 1;
    }
    is_moderate(width, height, samples)
}

} // verus!
