//! Lightning strikes: the stream's encoding, and the trail on the map.

use vstd::prelude::*;
use vstd::string::*;

use crate::double::Double;
use crate::geo::WorldPoint;
use crate::json::{
    as_number, as_whole, field_of, get_field, has_record_shape, is_record, json_of_text, number_of,
    parse_text, JsonModel,
};
use crate::layers::LayerStatus;
use crate::tasks::{elapsed, since};
use crate::text::{chars_of, text_of};

verus! {

/// What the character at `i` of an encoded text stands for. A code below 256
/// stands for itself. A higher one refers back: code `256 + k` stands for what
/// the character at `k` did with the first character of what the next one did;
/// one that refers to nothing yet repeats what came before, with its first
/// character behind it.
pub open spec fn piece(cs: Seq<char>, i: int) -> Seq<char>
    decreases i,
{
    if i <= 0 {
        seq![cs[0]]
    } else if (cs[i] as u32) < 256 {
        seq![cs[i]]
    } else {
        let k = cs[i] as u32 - 256;
        if k < i - 1 {
            piece(cs, k).push(piece(cs, k + 1)[0])
        } else {
            piece(cs, i - 1).push(piece(cs, i - 1)[0])
        }
    }
}

/// What the first `n` characters of an encoded text stand for.
pub open spec fn decoded(cs: Seq<char>, n: nat) -> Seq<char>
    decreases n,
{
    if n == 0 {
        Seq::empty()
    } else {
        decoded(cs, (n - 1) as nat) + piece(cs, n - 1)
    }
}

proof fn lemma_piece_not_empty(cs: Seq<char>, i: int)
    ensures
        piece(cs, i).len() >= 1,
    decreases i,
{
    if i > 0 && (cs[i] as u32) >= 256 {
        let k = cs[i] as u32 - 256;
        if k < i - 1 {
            lemma_piece_not_empty(cs, k);
        } else {
            lemma_piece_not_empty(cs, i - 1);
        }
    }
}

fn extended(a: &Vec<char>, b: &Vec<char>) -> (r: Vec<char>)
    requires
        b.len() >= 1,
    ensures
        r@ == a@.push(b@[0]),
{
    let mut r: Vec<char> = Vec::new();
    append(&mut r, a);
    r.push(b[0]);
    r
}

fn append(r: &mut Vec<char>, a: &Vec<char>)
    ensures
        final(r)@ == old(r)@ + a@,
{
    let mut i: usize = 0;
    while i < a.len()
        invariant
            i <= a.len(),
            r@ == old(r)@ + a@.take(i as int),
        decreases a.len() - i,
    {
        assert(a@.take(i + 1) =~= a@.take(i as int).push(a@[i as int]));
        r.push(a[i]);
        i = i + 1;
    }
    assert(a@.take(i as int) =~= a@);
}

/// Decode a message of the stream.
pub fn decode(ciphertext: &str) -> (s: String)
    ensures
        s@ == decoded(ciphertext@, ciphertext@.len()),
{
    let cs = chars_of(ciphertext);
    let mut pieces: Vec<Vec<char>> = Vec::new();
    let mut out: Vec<char> = Vec::new();
    let mut i: usize = 0;
    while i < cs.len()
        invariant
            i <= cs.len(),
            pieces.len() == i,
            forall|j: int| 0 <= j < i ==> (#[trigger] pieces[j])@ == piece(cs@, j),
            out@ == decoded(cs@, i as nat),
        decreases cs.len() - i,
    {
        let ch: char = cs[i];
        let code: u32 = ch as u32;
        let a: Vec<char> = if i == 0 || code < 256 {
            let mut one: Vec<char> = Vec::new();
            one.push(cs[i]);
            assert(one@ =~= piece(cs@, i as int));
            one
        } else {
            let k: u32 = code - 256;
            if (k as u64) < (i - 1) as u64 {
                let k: usize = k as usize;
                proof {
                    lemma_piece_not_empty(cs@, k + 1);
                }
                assert(pieces[k + 1]@ == piece(cs@, k + 1));
                extended(&pieces[k], &pieces[k + 1])
            } else {
                proof {
                    lemma_piece_not_empty(cs@, i - 1);
                }
                assert(pieces[i - 1]@ == piece(cs@, i - 1));
                extended(&pieces[i - 1], &pieces[i - 1])
            }
        };
        assert(a@ == piece(cs@, i as int));
        append(&mut out, &a);
        pieces.push(a);
        i = i + 1;
    }
    text_of(out.as_slice())
}

/// A text without high codes decodes to itself.
pub proof fn plain_text_decodes_to_itself(cs: Seq<char>)
    requires
        forall|i: int| 0 < i < cs.len() ==> (#[trigger] cs[i] as u32) < 256,
    ensures
        decoded(cs, cs.len()) == cs,
{
    lemma_plain(cs, cs.len());
    assert(cs.take(cs.len() as int) =~= cs);
}

proof fn lemma_plain(cs: Seq<char>, n: nat)
    requires
        n <= cs.len(),
        forall|i: int| 0 < i < cs.len() ==> (#[trigger] cs[i] as u32) < 256,
    ensures
        decoded(cs, n) == cs.take(n as int),
    decreases n,
{
    if n > 0 {
        lemma_plain(cs, (n - 1) as nat);
        if n > 1 {
            assert((cs[n - 1] as u32) < 256);
        }
        assert(cs.take(n as int) =~= cs.take(n - 1).push(cs[n - 1]));
        assert(decoded(cs, n) =~= cs.take(n as int));
    } else {
        assert(cs.take(0) =~= decoded(cs, 0));
    }
}

/// The dictionary entry `k` of an encoder, whose matches begin at `cuts` and
/// whose next one will begin at the last of them: match `k` and the character of
/// the text behind it.
pub open spec fn entry(text: Seq<char>, cuts: Seq<int>, k: int) -> Seq<char> {
    text.subrange(cuts[k], cuts[k + 1] + 1)
}

/// Whether the unread part of a text starts with a dictionary entry.
pub open spec fn entry_matches(text: Seq<char>, cuts: Seq<int>, k: int) -> bool {
    let rest = text.skip(cuts.last());
    entry(text, cuts, k).len() <= rest.len() && rest.take(entry(text, cuts, k).len() as int)
        == entry(text, cuts, k)
}

/// The longest of the first `n` dictionary entries with which the unread part of
/// a text starts.
pub open spec fn longest_entry(text: Seq<char>, cuts: Seq<int>, n: nat) -> Option<int>
    decreases n,
{
    if n == 0 {
        None
    } else {
        let k = n - 1;
        let found = longest_entry(text, cuts, (n - 1) as nat);
        if entry_matches(text, cuts, k) && (found is None || entry(text, cuts, k).len() > entry(
            text,
            cuts,
            found->0,
        ).len()) {
            Some(k)
        } else {
            found
        }
    }
}

/// The compression of the stream, after at most `n` matches: each time the
/// longest part that is in the dictionary is written out as its code, a single
/// character as itself and entry `k` as `256 + k`, and enters the dictionary
/// with the character behind it. Gives where the matches begin and their codes.
pub open spec fn matched(text: Seq<char>, n: nat) -> (Seq<int>, Seq<char>)
    decreases n,
{
    if n == 0 {
        (seq![0], Seq::empty())
    } else {
        let (cuts, codes) = matched(text, (n - 1) as nat);
        if cuts.last() >= text.len() {
            (cuts, codes)
        } else {
            match longest_entry(text, cuts, (cuts.len() - 1) as nat) {
                Some(k) => (
                    cuts.push(cuts.last() + entry(text, cuts, k).len()),
                    codes.push((256 + k) as char),
                ),
                None => (cuts.push(cuts.last() + 1), codes.push(text[cuts.last()])),
            }
        }
    }
}

/// A text as the stream sends it.
pub open spec fn encoded(text: Seq<char>) -> Seq<char> {
    matched(text, text.len()).1
}

/// Decoding undoes the compression of the stream: what was encoded comes back.
/// The text holds codes below 256, and is short enough for every code to be a
/// character.
pub proof fn decoding_undoes_encoding(text: Seq<char>)
    requires
        forall|i: int| 0 <= i < text.len() ==> (#[trigger] text[i] as u32) < 256,
        text.len() <= 0xd700,
    ensures
        decoded(encoded(text), encoded(text).len()) == text,
{
    lemma_matched(text, text.len());
    assert(text.take(text.len() as int) =~= text);
}

/// A code from 256 on stands for one character more than the character to which
/// it refers, and starts with what that one stands for; the character behind is
/// the first of what the next one stands for.
pub proof fn references_add_one_character(cs: Seq<char>, i: int)
    requires
        0 < i < cs.len(),
        cs[i] as u32 >= 256,
    ensures
        ({
            let code = cs[i] as u32 as int;
            let k = if code - 256 < i - 1 {
                code - 256
            } else {
                i - 1
            };
            &&& piece(cs, i).len() == piece(cs, k).len() + 1
            &&& piece(cs, i).drop_last() == piece(cs, k)
            &&& piece(cs, i).last() == piece(cs, k + 1)[0]
        }),
{
    let code = cs[i] as u32 as int;
    let k = if code - 256 < i - 1 {
        code - 256
    } else {
        i - 1
    };
    lemma_piece_not_empty(cs, k);
    assert(piece(cs, i).drop_last() =~= piece(cs, k));
}

proof fn lemma_longest_entry(text: Seq<char>, cuts: Seq<int>, n: nat)
    ensures
        longest_entry(text, cuts, n) matches Some(k) ==> 0 <= k < n && entry_matches(text, cuts, k),
    decreases n,
{
    if n > 0 {
        lemma_longest_entry(text, cuts, (n - 1) as nat);
    }
}

/// What a character stands for depends on those up to it alone.
proof fn lemma_piece_prefix(a: Seq<char>, b: Seq<char>, i: int)
    requires
        0 <= i < a.len() <= b.len(),
        a == b.take(a.len() as int),
    ensures
        piece(a, i) == piece(b, i),
    decreases i,
{
    assert(a[i] == b[i]);
    assert(a[0] == b[0]);
    if i > 0 && (a[i] as u32) >= 256 {
        let k = a[i] as u32 - 256;
        if k < i - 1 {
            lemma_piece_prefix(a, b, k);
            lemma_piece_prefix(a, b, k + 1);
        } else {
            lemma_piece_prefix(a, b, i - 1);
        }
    }
}

proof fn lemma_decoded_prefix(a: Seq<char>, b: Seq<char>, n: nat)
    requires
        n <= a.len() <= b.len(),
        a == b.take(a.len() as int),
    ensures
        decoded(a, n) == decoded(b, n),
    decreases n,
{
    if n > 0 {
        lemma_decoded_prefix(a, b, (n - 1) as nat);
        lemma_piece_prefix(a, b, n - 1);
    }
}

/// One more match: it is the text from where the last one ended.
proof fn lemma_next_piece(
    text: Seq<char>,
    cuts: Seq<int>,
    codes: Seq<char>,
    m: int,
    k: int,
    q: int,
)
    requires
        0 <= k < m,
        cuts.len() == m + 1,
        codes.len() == m + 1,
        0 <= cuts[k] < cuts[k + 1] <= cuts[m] < q <= text.len(),
        k < m - 1 ==> cuts[k + 1] < cuts[k + 2] <= text.len(),
        codes[m] as u32 == 256 + k,
        entry(text, cuts, k) == text.subrange(cuts[m], q),
        piece(codes, k) == text.subrange(cuts[k], cuts[k + 1]),
        k < m - 1 ==> piece(codes, k + 1) == text.subrange(cuts[k + 1], cuts[k + 2]),
    ensures
        piece(codes, m) == text.subrange(cuts[m], q),
{
    let e = entry(text, cuts, k);
    assert(e[0] == text[cuts[k]]);
    assert(text.subrange(cuts[m], q)[0] == text[cuts[m]]);
    assert(piece(codes, m) =~= e);
}

/// What holds of an encoder's matches and codes.
spec fn keeps_text(text: Seq<char>, cuts: Seq<int>, codes: Seq<char>) -> bool {
    &&& cuts.len() == codes.len() + 1
    &&& cuts[0] == 0
    &&& forall|i: int, j: int| 0 <= i < j < cuts.len() ==> cuts[i] < cuts[j]
    &&& codes.len() <= cuts.last() <= text.len()
    &&& forall|i: int|
        0 <= i < codes.len() ==> #[trigger] piece(codes, i) == text.subrange(cuts[i], cuts[i + 1])
    &&& decoded(codes, codes.len()) == text.take(cuts.last())
}

/// One more match, where it stands for the text from `cuts.last()` to `q`.
proof fn lemma_one_more(text: Seq<char>, cuts: Seq<int>, codes: Seq<char>, c: char, q: int)
    requires
        keeps_text(text, cuts, codes),
        cuts.last() < q <= text.len(),
        piece(codes.push(c), codes.len() as int) == text.subrange(cuts.last(), q),
    ensures
        keeps_text(text, cuts.push(q), codes.push(c)),
{
    let m = codes.len() as int;
    let cuts1 = cuts.push(q);
    let codes1 = codes.push(c);
    assert(codes1.take(m) =~= codes);
    assert forall|i: int| 0 <= i < codes1.len() implies #[trigger] piece(codes1, i)
        == text.subrange(cuts1[i], cuts1[i + 1]) by {
        if i < m {
            lemma_piece_prefix(codes, codes1, i);
            assert(cuts1[i] == cuts[i] && cuts1[i + 1] == cuts[i + 1]);
        }
    }
    lemma_decoded_prefix(codes, codes1, m as nat);
    assert(text.take(cuts.last()) + text.subrange(cuts.last(), q) =~= text.take(q));
}

proof fn lemma_matched(text: Seq<char>, n: nat)
    requires
        forall|i: int| 0 <= i < text.len() ==> (#[trigger] text[i] as u32) < 256,
        text.len() <= 0xd700,
    ensures
        keeps_text(text, matched(text, n).0, matched(text, n).1),
        matched(text, n).0.last() >= n || matched(text, n).0.last() == text.len(),
    decreases n,
{
    if n == 0 {
        assert(text.take(0) =~= Seq::<char>::empty());
        assert(keeps_text(text, seq![0int], Seq::<char>::empty()));
    } else {
        lemma_matched(text, (n - 1) as nat);
        let (cuts, codes) = matched(text, (n - 1) as nat);
        let p = cuts.last();
        let m = codes.len() as int;
        if p < text.len() {
            lemma_longest_entry(text, cuts, m as nat);
            match longest_entry(text, cuts, m as nat) {
                Some(k) => {
                    let q = p + entry(text, cuts, k).len();
                    let c = (256 + k) as char;
                    let codes1 = codes.push(c);
                    assert(cuts[k] < cuts[k + 1]);
                    assert(k < m - 1 ==> cuts[k + 1] < cuts[k + 2]);
                    assert(text.skip(p).take(q - p) =~= text.subrange(p, q));
                    assert(codes1.take(m) =~= codes);
                    lemma_piece_prefix(codes, codes1, k);
                    assert(piece(codes, k) == text.subrange(cuts[k], cuts[k + 1]));
                    if k < m - 1 {
                        lemma_piece_prefix(codes, codes1, k + 1);
                        assert(piece(codes, k + 1) == text.subrange(cuts[k + 1], cuts[k + 2]));
                    }
                    lemma_next_piece(text, cuts, codes1, m, k, q);
                    lemma_one_more(text, cuts, codes, c, q);
                },
                None => {
                    assert((text[p] as u32) < 256);
                    assert(piece(codes.push(text[p]), m) =~= text.subrange(p, p + 1));
                    lemma_one_more(text, cuts, codes, text[p], p + 1);
                },
            }
        }
    }
}

/// A strike as the stream reports it.
#[derive(Debug, Clone, Copy, PartialEq, Eq, Structural)]
pub struct RawStrike {
    pub lat: Double,
    pub lon: Double,
    pub pol: i32,
}

/// The strike that a value describes, none where a field is missing or is not
/// of its type.
pub open spec fn strike_of(v: Option<JsonModel>) -> Option<RawStrike> {
    match v {
        Some(v) => match (
            number_of(field_of(v, "lat"@, 0)),
            number_of(field_of(v, "lon"@, 1)),
            whole_of(field_of(v, "pol"@, 2)),
        ) {
            _ if !is_record(v, 3, 3) => None,
            (Some(lat), Some(lon), Some(pol)) => if i32::MIN <= pol <= i32::MAX {
                Some(RawStrike { lat, lon, pol: pol as i32 })
            } else {
                None
            },
            _ => None,
        },
        None => None,
    }
}

pub open spec fn whole_of(v: Option<JsonModel>) -> Option<i64> {
    match v {
        Some(v) => v.whole(),
        None => None,
    }
}

/// An object with the three numbers is the strike with that latitude, longitude
/// and polarity, whatever else it holds and in whatever order.
pub proof fn strikes_are_read_by_name(v: JsonModel, lat: u64, lon: u64, pol: i64)
    requires
        v.at("lat"@) matches Some(JsonModel::Number(y, _)) && y == lat,
        v.at("lon"@) matches Some(JsonModel::Number(x, _)) && x == lon,
        v.at("pol"@) matches Some(JsonModel::Number(_, Some(p))) && p == pol,
        i32::MIN <= pol <= i32::MAX,
    ensures
        strike_of(Some(v)) matches Some(s) && s.lat.bits == lat && s.lon.bits == lon && s.pol
            == pol,
{
}

/// Read a strike from a decoded message.
pub fn parse_strike(text: &str) -> (r: Option<RawStrike>)
    ensures
        r == strike_of(json_of_text(text@)),
{
    let v = match parse_text(text) {
        Some(v) => v,
        None => {
            return None;
        },
    };
    if !has_record_shape(&v, 3, 3) {
        return None;
    }
    let lat = match get_field(&v, "lat", 0) {
        Some(n) => as_number(n),
        None => None,
    };
    let lon = match get_field(&v, "lon", 1) {
        Some(n) => as_number(n),
        None => None,
    };
    let pol = match get_field(&v, "pol", 2) {
        Some(n) => as_whole(n),
        None => None,
    };
    match (lat, lon, pol) {
        (Some(lat), Some(lon), Some(pol)) => {
            if -0x8000_0000 <= pol && pol <= 0x7fff_ffff {
                Some(RawStrike { lat, lon, pol: pol as i32 })
            } else {
                None
            }
        },
        _ => None,
    }
}

impl RawStrike {
    /// The polarity, bounded to what the map stores.
    pub fn polarity(&self) -> (p: i8)
        ensures
            p == if self.pol < -127 {
                -127
            } else if self.pol > 127 {
                127
            } else {
                self.pol as int
            },
    {
        if self.pol < -127 {
            -127
        } else if self.pol > 127 {
            127
        } else {
            self.pol as i8
        }
    }
}

/// A message of the stream as a strike, none where it is none.
pub fn read_message(message: &str) -> (r: Option<RawStrike>)
    ensures
        r == strike_of(json_of_text(decoded(message@, message@.len()))),
{
    parse_strike(decode(message).as_str())
}

/// The servers of the stream.
pub open spec fn servers() -> Seq<Seq<char>> {
    seq![
        "wss://ws1.blitzortung.org"@,
        "wss://ws7.blitzortung.org"@,
        "wss://ws8.blitzortung.org"@,
    ]
}

/// The server for an attempt to connect: they take turns.
pub fn server_for(attempt: usize) -> (s: &'static str)
    ensures
        s@ == servers()[attempt as int % 3],
{
    match attempt % 3 {
        0 => "wss://ws1.blitzortung.org",
        1 => "wss://ws7.blitzortung.org",
        _ => "wss://ws8.blitzortung.org",
    }
}

/// Why the stream is down.
#[derive(Debug, Clone, Copy, PartialEq, Eq, Structural)]
pub enum StreamDown {
    ConnectFailed,
    SubscribeFailed,
    Disconnected,
}

/// The seconds to wait before the next attempt.
pub fn reconnect_wait(down: StreamDown) -> (secs: u64)
    ensures
        secs == match down {
            StreamDown::ConnectFailed => 5u64,
            StreamDown::SubscribeFailed => 2,
            StreamDown::Disconnected => 3,
        },
{
    match down {
        StreamDown::ConnectFailed => 5,
        StreamDown::SubscribeFailed => 2,
        StreamDown::Disconnected => 3,
    }
}

/// The message that subscribes to the stream.
pub const SUBSCRIBE: &'static str = "{\"a\":111}";

/// The number -1, the coordinates of the point that reports a connection.
pub const MINUS_ONE_BITS: u64 = 0xbff0_0000_0000_0000;

/// The point that reports a connection; no strike lies there.
pub fn connected_sentinel() -> (p: WorldPoint)
    ensures
        p.x.bits == MINUS_ONE_BITS,
        p.y.bits == MINUS_ONE_BITS,
{
    WorldPoint { x: Double::from_bits(MINUS_ONE_BITS), y: Double::from_bits(MINUS_ONE_BITS) }
}

/// A strike on the map.
#[derive(Debug, Clone, Copy, PartialEq, Eq, Structural)]
pub struct Strike {
    pub point: WorldPoint,
    /// When it arrived, in nanoseconds of the program's clock.
    pub at: u64,
    pub pol: i8,
}

/// How long a strike flashes, 900 milliseconds.
pub const IMPACT: u64 = 900_000_000;

/// A minute of the program's clock.
pub const MINUTE: u64 = 60_000_000_000;

/// So many strikes are kept at most.
pub const MAX_STRIKES: usize = 5_000;

/// The strikes on the map and the state of the stream.
#[derive(Debug)]
pub struct LightningTrail {
    pub strikes: Vec<Strike>,
    pub trail_minutes: u8,
    pub status: LayerStatus,
    pub connected: bool,
}

/// Whether a point reports a connection.
pub open spec fn reports_connection(p: WorldPoint) -> bool {
    p.x.below(Double { bits: 0 })
}

/// The strikes among the first `n` arrivals.
pub open spec fn arrived(arrivals: Seq<(WorldPoint, i8)>, now: u64, n: nat) -> Seq<Strike>
    decreases n,
{
    if n == 0 {
        Seq::empty()
    } else {
        let before = arrived(arrivals, now, (n - 1) as nat);
        let (point, pol) = arrivals[n - 1];
        if reports_connection(point) {
            before
        } else {
            before.push(Strike { point, at: now, pol })
        }
    }
}

/// Whether a strike is not yet `span` old.
pub open spec fn younger(s: Strike, now: u64, span: int) -> bool {
    since(s.at, now) < span
}

pub open spec fn recent(strikes: Seq<Strike>, now: u64, span: int) -> Seq<Strike> {
    strikes.filter(|s: Strike| younger(s, now, span))
}

/// The newest of the strikes, as many as are kept.
pub open spec fn newest(strikes: Seq<Strike>) -> Seq<Strike> {
    if strikes.len() > MAX_STRIKES {
        strikes.skip(strikes.len() - MAX_STRIKES)
    } else {
        strikes
    }
}

/// Whether a strike flashes.
pub open spec fn flashing(strikes: Seq<Strike>, now: u64) -> bool {
    exists|i: int| 0 <= i < strikes.len() && younger(#[trigger] strikes[i], now, IMPACT as int)
}

impl LightningTrail {
    pub fn new(trail_minutes: u8) -> (t: LightningTrail)
        ensures
            t.strikes@ == Seq::<Strike>::empty(),
            t.trail_minutes == trail_minutes,
            t.status is Idle,
            !t.connected,
    {
        LightningTrail {
            strikes: Vec::new(),
            trail_minutes,
            status: LayerStatus::Idle,
            connected: false,
        }
    }

    /// A connection is asked for, in place of one that there is. Returns
    /// whether one has to be closed first.
    pub fn request_lightning_connect(&mut self) -> (close: bool)
        ensures
            close == old(self).connected,
            final(self).connected,
            final(self).status is Loading,
            final(self).strikes == old(self).strikes,
            final(self).trail_minutes == old(self).trail_minutes,
    {
        let close = self.abort_lightning();
        self.connected = true;
        self.status = LayerStatus::Loading;
        close
    }

    /// The connection is given up. Returns whether there is one to close.
    pub fn abort_lightning(&mut self) -> (close: bool)
        ensures
            close == old(self).connected,
            !final(self).connected,
            final(self).status is Idle,
            final(self).strikes == old(self).strikes,
            final(self).trail_minutes == old(self).trail_minutes,
    {
        let close = self.connected;
        self.connected = false;
        self.status = LayerStatus::Idle;
        close
    }

    /// What the strikes are after arrivals at `now`.
    pub open spec fn after(self, arrivals: Seq<(WorldPoint, i8)>, now: u64) -> Seq<Strike> {
        newest(
            recent(
                self.strikes@ + arrived(arrivals, now, arrivals.len()),
                now,
                self.trail_minutes * MINUTE,
            ),
        )
    }

    /// Take in what the stream delivered, and drop the strikes that are too
    /// old or too many. Returns whether the map has to be drawn again: the
    /// strikes changed, or one flashes.
    pub fn drain_lightning_results(&mut self, arrivals: &[(WorldPoint, i8)], now: u64) -> (changed:
        bool)
        ensures
            final(self).strikes@ == old(self).after(arrivals@, now),
            final(self).trail_minutes == old(self).trail_minutes,
            final(self).connected == old(self).connected,
            if exists|i: int|
                0 <= i < arrivals.len() && reports_connection((#[trigger] arrivals[i]).0) {
                final(self).status is Ready
            } else {
                final(self).status == old(self).status
            },
            changed == ({
                let all = old(self).strikes@ + arrived(arrivals@, now, arrivals@.len());
                let kept = recent(all, now, old(self).trail_minutes * MINUTE);
                arrivals.len() > 0 || kept.len() < all.len() || kept.len() > MAX_STRIKES
                    || flashing(final(self).strikes@, now)
            }),
    {
        let ghost before = self.strikes@;
        let mut i: usize = 0;
        while i < arrivals.len()
            invariant
                i <= arrivals.len(),
                self.strikes@ == before + arrived(arrivals@, now, i as nat),
                self.trail_minutes == old(self).trail_minutes,
                self.connected == old(self).connected,
                if exists|j: int|
                    0 <= j < i && reports_connection((#[trigger] arrivals[j]).0) {
                    self.status is Ready
                } else {
                    self.status == old(self).status
                },
            decreases arrivals.len() - i,
        {
            let (point, pol) = arrivals[i];
            if point.x.lt(Double::from_bits(0)) {
                assert(reports_connection(arrivals[i as int].0));
                self.status = LayerStatus::Ready;
            } else {
                self.strikes.push(Strike { point, at: now, pol });
                assert(self.strikes@ =~= before + arrived(arrivals@, now, (i + 1) as nat));
            }
            i = i + 1;
        }
        let ghost all = self.strikes@;
        let span: u64 = self.trail_minutes as u64 * MINUTE;
        let ghost keep = |s: Strike| younger(s, now, span as int);
        let mut kept: Vec<Strike> = Vec::new();
        let mut k: usize = 0;
        proof {
            reveal(Seq::filter);
            assert(all.take(0) =~= Seq::<Strike>::empty());
        }
        while k < self.strikes.len()
            invariant
                k <= self.strikes.len(),
                self.strikes@ == all,
                keep == (|s: Strike| younger(s, now, span as int)),
                kept@ == all.take(k as int).filter(keep),
                kept.len() <= k,
            decreases self.strikes.len() - k,
        {
            proof {
                reveal(Seq::filter);
                assert(all.take(k + 1).drop_last() =~= all.take(k as int));
            }
            let s = self.strikes[k];
            if elapsed(s.at, now) < span {
                kept.push(s);
            }
            k = k + 1;
        }
        assert(all.take(k as int) =~= all);
        let mut changed = arrivals.len() > 0 || kept.len() < self.strikes.len();
        if kept.len() > MAX_STRIKES {
            let start: usize = kept.len() - MAX_STRIKES;
            let mut last: Vec<Strike> = Vec::new();
            let mut j: usize = start;
            while j < kept.len()
                invariant
                    start <= j <= kept.len(),
                    last@ == kept@.subrange(start as int, j as int),
                decreases kept.len() - j,
            {
                assert(kept@.subrange(start as int, j + 1) =~= kept@.subrange(
                    start as int,
                    j as int,
                ).push(kept@[j as int]));
                last.push(kept[j]);
                j = j + 1;
            }
            assert(last@ =~= kept@.skip(start as int));
            self.strikes = last;
            changed = true;
        } else {
            self.strikes = kept;
        }
        if !changed {
            changed = self.has_lightning_impact(now);
        }
        changed
    }

    /// Whether a strike flashes.
    pub fn has_lightning_impact(&self, now: u64) -> (r: bool)
        ensures
            r == flashing(self.strikes@, now),
    {
        let mut i: usize = 0;
        while i < self.strikes.len()
            invariant
                i <= self.strikes.len(),
                forall|j: int|
                    0 <= j < i ==> !younger(#[trigger] self.strikes[j], now, IMPACT as int),
            decreases self.strikes.len() - i,
        {
            if elapsed(self.strikes[i].at, now) < IMPACT {
                assert(younger(self.strikes@[i as int], now, IMPACT as int));
                return true;
            }
            i = i + 1;
        }
        false
    }
}

/// Every strike that arrives is on the map, where it struck, and so is every
/// earlier one that is not too old, as long as they are not too many; however many
/// there are, the last to arrive is there.
pub proof fn strikes_stay_on_the_map(t: LightningTrail, arrivals: Seq<(WorldPoint, i8)>, now: u64)
    requires
        t.trail_minutes > 0,
    ensures
        t.strikes@.len() + arrivals.len() <= MAX_STRIKES ==> {
            &&& forall|i: int|
                0 <= i < arrivals.len() && !(#[trigger] arrivals[i]).0.x.below(
                    (Double { bits: 0 }),
                ) ==> t.after(arrivals, now).contains(
                    (Strike { point: arrivals[i].0, at: now, pol: arrivals[i].1 }),
                )
            &&& forall|i: int|
                0 <= i < t.strikes@.len() && since((#[trigger] t.strikes@[i]).at, now)
                    < t.trail_minutes * MINUTE ==> t.after(arrivals, now).contains(t.strikes@[i])
        },
        arrivals.len() > 0 && !arrivals.last().0.x.below((Double { bits: 0 })) ==> t.after(
            arrivals,
            now,
        ).len() > 0 && t.after(arrivals, now).last() == (Strike {
            point: arrivals.last().0,
            at: now,
            pol: arrivals.last().1,
        }),
{
    let came = arrived(arrivals, now, arrivals.len());
    let all = t.strikes@ + came;
    let span = t.trail_minutes * MINUTE;
    let keep = |s: Strike| younger(s, now, span);
    let kept = all.filter(keep);
    lemma_arrived_len(arrivals, now, arrivals.len());
    all.lemma_filter_len(keep);
    if t.strikes@.len() + arrivals.len() <= MAX_STRIKES {
        assert(kept.len() <= MAX_STRIKES);
        assert(t.after(arrivals, now) == kept);
        assert forall|i: int|
            0 <= i < arrivals.len() && !(#[trigger] arrivals[i]).0.x.below(
                (Double { bits: 0 }),
            ) implies kept.contains(
            (Strike { point: arrivals[i].0, at: now, pol: arrivals[i].1 }),
        ) by {
            lemma_arrived(arrivals, now, arrivals.len(), i);
            let s = Strike { point: arrivals[i].0, at: now, pol: arrivals[i].1 };
            let k = choose|k: int| 0 <= k < came.len() && came[k] == s;
            assert(all[t.strikes@.len() + k] == s);
            all.lemma_filter_contains(keep, t.strikes@.len() + k);
        }
        assert forall|i: int|
            0 <= i < t.strikes@.len() && since((#[trigger] t.strikes@[i]).at, now)
                < span implies kept.contains(t.strikes@[i]) by {
            assert(all[i] == t.strikes@[i]);
            all.lemma_filter_contains(keep, i);
        }
    }
    if arrivals.len() > 0 && !arrivals.last().0.x.below((Double { bits: 0 })) {
        let s = Strike { point: arrivals.last().0, at: now, pol: arrivals.last().1 };
        assert(came.last() == s);
        assert(all.last() == s);
        reveal(Seq::filter);
        assert(kept.len() > 0 && kept.last() == s);
    }
}

proof fn lemma_arrived_len(arrivals: Seq<(WorldPoint, i8)>, now: u64, n: nat)
    ensures
        arrived(arrivals, now, n).len() <= n,
    decreases n,
{
    if n > 0 {
        lemma_arrived_len(arrivals, now, (n - 1) as nat);
    }
}

proof fn lemma_arrived(arrivals: Seq<(WorldPoint, i8)>, now: u64, n: nat, i: int)
    requires
        0 <= i < n <= arrivals.len(),
        !reports_connection(arrivals[i].0),
    ensures
        arrived(arrivals, now, n).contains(
            (Strike { point: arrivals[i].0, at: now, pol: arrivals[i].1 }),
        ),
    decreases n,
{
    let s = Strike { point: arrivals[i].0, at: now, pol: arrivals[i].1 };
    let before = arrived(arrivals, now, (n - 1) as nat);
    let after = arrived(arrivals, now, n);
    if i < n - 1 {
        lemma_arrived(arrivals, now, (n - 1) as nat, i);
        let k = choose|k: int| 0 <= k < before.len() && before[k] == s;
        assert(after[k] == s);
    } else {
        assert(after[before.len() as int] == s);
    }
}

/// The trail never grows beyond its cap, and holds no strike that is too old.
pub proof fn trail_is_bounded(t: LightningTrail, arrivals: Seq<(WorldPoint, i8)>, now: u64, i: int)
    requires
        0 <= i < t.after(arrivals, now).len(),
    ensures
        t.after(arrivals, now).len() <= MAX_STRIKES,
        younger(t.after(arrivals, now)[i], now, t.trail_minutes * MINUTE),
{
    let all = t.strikes@ + arrived(arrivals, now, arrivals.len());
    let span = t.trail_minutes * MINUTE;
    let keep = |s: Strike| younger(s, now, span);
    let kept = all.filter(keep);
    let at = if kept.len() > MAX_STRIKES {
        i + kept.len() - MAX_STRIKES
    } else {
        i
    };
    assert(t.after(arrivals, now)[i] == kept[at]);
    all.lemma_filter_pred(keep, at);
}

} // verus!
