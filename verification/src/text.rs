//! Text as sequences of characters.

use vstd::prelude::*;
use vstd::string::*;

verus! {

/// `String::push` appends one character.
pub assume_specification[ String::push ](s: &mut String, c: char)
    ensures
        final(s)@ == old(s)@.push(c),
;

/// `String::pop` removes the last character and returns it, none where there is
/// none.
pub assume_specification[ String::pop ](s: &mut String) -> (r: Option<char>)
    ensures
        match r {
            Some(c) => old(s)@.len() > 0 && c == old(s)@.last() && final(s)@
                == old(s)@.drop_last(),
            None => old(s)@.len() == 0 && final(s)@ == old(s)@,
        },
;

/// The text without its last character, where it has one.
pub open spec fn shortened(s: Seq<char>) -> Seq<char> {
    if s.len() == 0 {
        s
    } else {
        s.drop_last()
    }
}

/// The characters of a text.
pub fn chars_of(s: &str) -> (r: Vec<char>)
    ensures
        r@ == s@,
{
    let mut r: Vec<char> = Vec::new();
    for c in it: s.chars()
        invariant
            r@ == s@.take(it.index() as int),
            it.seq() == s@,
    {
        assert(s@.take(it.index() + 1) =~= s@.take(it.index() as int).push(c));
        r.push(c);
    }
    assert(s@.take(s@.len() as int) =~= s@);
    r
}

/// The text made of characters.
pub fn text_of(cs: &[char]) -> (s: String)
    ensures
        s@ == cs@,
{
    let mut s = String::new();
    let mut i: usize = 0;
    while i < cs.len()
        invariant
            i <= cs.len(),
            s@ == cs@.take(i as int),
        decreases cs.len() - i,
    {
        assert(cs@.take(i + 1) =~= cs@.take(i as int).push(cs@[i as int]));
        s.push(cs[i]);
        i = i + 1;
    }
    assert(cs@.take(i as int) =~= cs@);
    s
}

/// Whether two texts are the same.
pub fn same_text(a: &str, b: &str) -> (r: bool)
    ensures
        r == (a@ == b@),
{
    a.to_string() == b.to_string()
}

/// Whether `needle` stands in `hay` at place `i`.
pub open spec fn stands_at(hay: Seq<char>, needle: Seq<char>, i: int) -> bool {
    0 <= i && i + needle.len() <= hay.len() && hay.subrange(i, i + needle.len()) == needle
}

/// Whether `needle` stands somewhere in `hay`.
pub open spec fn has_part(hay: Seq<char>, needle: Seq<char>) -> bool {
    exists|i: int| #[trigger] stands_at(hay, needle, i)
}

pub fn contains_text(hay: &str, needle: &str) -> (r: bool)
    ensures
        r == has_part(hay@, needle@),
{
    let h = chars_of(hay);
    let n = chars_of(needle);
    match find_chars(&h, &n, 0) {
        Some(i) => {
            assert(stands_at(hay@, needle@, i as int));
            true
        },
        None => false,
    }
}

/// The first place at or after `from` where `needle` stands.
pub fn find_chars(hay: &[char], needle: &[char], from: usize) -> (r: Option<usize>)
    ensures
        match r {
            Some(i) => {
                &&& from <= i
                &&& stands_at(hay@, needle@, i as int)
                &&& forall|j: int| from <= j < i ==> !#[trigger] stands_at(hay@, needle@, j)
            },
            None => forall|j: int| from <= j ==> !#[trigger] stands_at(hay@, needle@, j),
        },
{
    if needle.len() > hay.len() {
        return None;
    }
    let last: usize = hay.len() - needle.len();
    let mut i: usize = from;
    while i <= last
        invariant
            last == hay.len() - needle.len(),
            from <= i,
            forall|j: int| from <= j < i ==> !#[trigger] stands_at(hay@, needle@, j),
        decreases hay.len() + 1 - i,
    {
        if matches_at(hay, needle, i) {
            return Some(i);
        }
        if i == last {
            return None;
        }
        i = i + 1;
    }
    None
}

pub fn matches_at(hay: &[char], needle: &[char], i: usize) -> (r: bool)
    requires
        i + needle.len() <= hay.len(),
    ensures
        r == stands_at(hay@, needle@, i as int),
{
    let mut k: usize = 0;
    while k < needle.len()
        invariant
            k <= needle.len(),
            i + needle.len() <= hay.len(),
            forall|j: int| 0 <= j < k ==> hay@[i + j] == #[trigger] needle@[j],
        decreases needle.len() - k,
    {
        if hay[i + k] != needle[k] {
            assert(hay@.subrange(i as int, i + needle@.len())[k as int] == hay@[i + k]);
            return false;
        }
        k = k + 1;
    }
    assert(hay@.subrange(i as int, i + needle@.len()) =~= needle@);
    true
}

/// The white space of Unicode.
pub open spec fn white(c: char) -> bool {
    let u = c as u32;
    ||| 0x9 <= u <= 0xd
    ||| u == 0x20 || u == 0x85 || u == 0xa0 || u == 0x1680
    ||| 0x2000 <= u <= 0x200a
    ||| u == 0x2028 || u == 0x2029 || u == 0x202f || u == 0x205f || u == 0x3000
}

pub fn is_white(c: char) -> (r: bool)
    ensures
        r == white(c),
{
    let u: u32 = c as u32;
    (0x9 <= u && u <= 0xd) || u == 0x20 || u == 0x85 || u == 0xa0 || u == 0x1680 || (0x2000 <= u
        && u <= 0x200a) || u == 0x2028 || u == 0x2029 || u == 0x202f || u == 0x205f || u == 0x3000
}

/// A text without white space at its start.
pub open spec fn trimmed_start(s: Seq<char>) -> Seq<char>
    decreases s.len(),
{
    if s.len() > 0 && white(s[0]) {
        trimmed_start(s.drop_first())
    } else {
        s
    }
}

/// A text without white space at its end.
pub open spec fn trimmed_end(s: Seq<char>) -> Seq<char>
    decreases s.len(),
{
    if s.len() > 0 && white(s.last()) {
        trimmed_end(s.drop_last())
    } else {
        s
    }
}

/// A text without white space around it.
pub open spec fn trimmed(s: Seq<char>) -> Seq<char> {
    trimmed_end(trimmed_start(s))
}

pub fn trim(s: &str) -> (r: String)
    ensures
        r@ == trimmed(s@),
{
    let cs = chars_of(s);
    trim_chars(&cs)
}

pub fn trim_chars(cs: &[char]) -> (r: String)
    ensures
        r@ == trimmed(cs@),
{
    let n: usize = cs.len();
    let mut a: usize = 0;
    assert(cs@.skip(0) =~= cs@);
    while a < n && is_white(cs[a])
        invariant
            a <= n,
            n == cs.len(),
            trimmed_start(cs@) == trimmed_start(cs@.skip(a as int)),
        decreases n - a,
    {
        assert(cs@.skip(a as int).drop_first() =~= cs@.skip(a + 1));
        a = a + 1;
    }
    let ghost rest = trimmed_start(cs@);
    assert(rest =~= cs@.subrange(a as int, n as int));
    let mut b: usize = n;
    while b > a && is_white(cs[b - 1])
        invariant
            a <= b <= n,
            n == cs.len(),
            trimmed_end(rest) == trimmed_end(cs@.subrange(a as int, b as int)),
        decreases b,
    {
        let ghost t = cs@.subrange(a as int, b as int);
        assert(t.drop_last() =~= cs@.subrange(a as int, b - 1));
        assert(t.last() == cs@[b - 1]);
        b = b - 1;
    }
    let mut s = String::new();
    let mut i: usize = a;
    while i < b
        invariant
            a <= i <= b,
            b <= cs.len(),
            s@ == cs@.subrange(a as int, i as int),
        decreases b - i,
    {
        assert(cs@.subrange(a as int, i + 1) =~= cs@.subrange(a as int, i as int).push(
            cs@[i as int],
        ));
        s.push(cs[i]);
        i = i + 1;
    }
    assert(b == a || !white(cs@.subrange(a as int, b as int).last()));
    s
}

/// Whether nothing but white space is in a text.
pub open spec fn blank(s: Seq<char>) -> bool {
    forall|i: int| 0 <= i < s.len() ==> white(#[trigger] s[i])
}

pub fn is_blank(s: &str) -> (r: bool)
    ensures
        r == blank(s@),
        r == (trimmed(s@).len() == 0),
{
    let cs = chars_of(s);
    proof {
        lemma_blank_trims_away(s@);
    }
    let mut i: usize = 0;
    while i < cs.len()
        invariant
            i <= cs.len(),
            cs@ == s@,
            blank(s@) <==> trimmed(s@).len() == 0,
            forall|k: int| 0 <= k < i ==> white(#[trigger] s@[k]),
        decreases cs.len() - i,
    {
        if !is_white(cs[i]) {
            return false;
        }
        i = i + 1;
    }
    true
}

/// Trimming takes the white space from both ends and nothing else.
pub proof fn trimming_takes_the_ends(a: Seq<char>, s: Seq<char>, b: Seq<char>)
    requires
        blank(a),
        blank(b),
        s.len() > 0,
        !white(s[0]),
        !white(s.last()),
    ensures
        trimmed(a + s + b) == s,
{
    lemma_trim_start(a, s + b);
    assert(a + (s + b) =~= a + s + b);
    lemma_trim_end(s, b);
}

proof fn lemma_trim_start(a: Seq<char>, s: Seq<char>)
    requires
        blank(a),
        s.len() > 0,
        !white(s[0]),
    ensures
        trimmed_start(a + s) == s,
    decreases a.len(),
{
    if a.len() > 0 {
        assert(white(a[0]));
        assert forall|i: int| 0 <= i < a.drop_first().len() implies white(
            #[trigger] a.drop_first()[i],
        ) by {
            assert(a.drop_first()[i] == a[i + 1]);
        }
        lemma_trim_start(a.drop_first(), s);
        assert((a + s).drop_first() =~= a.drop_first() + s);
    } else {
        assert(a + s =~= s);
    }
}

proof fn lemma_trim_end(s: Seq<char>, b: Seq<char>)
    requires
        blank(b),
        s.len() > 0,
        !white(s.last()),
    ensures
        trimmed_end(s + b) == s,
    decreases b.len(),
{
    if b.len() > 0 {
        assert(white(b[b.len() - 1]));
        assert forall|i: int| 0 <= i < b.drop_last().len() implies white(
            #[trigger] b.drop_last()[i],
        ) by {
            assert(b.drop_last()[i] == b[i]);
        }
        lemma_trim_end(s, b.drop_last());
        assert((s + b).drop_last() =~= s + b.drop_last());
    } else {
        assert(s + b =~= s);
    }
}

/// A text is blank where trimming leaves nothing of it.
pub proof fn lemma_blank_trims_away(s: Seq<char>)
    ensures
        blank(s) <==> trimmed(s).len() == 0,
    decreases s.len(),
{
    if s.len() > 0 && white(s[0]) {
        lemma_blank_trims_away(s.drop_first());
        assert(blank(s) <==> blank(s.drop_first())) by {
            if blank(s.drop_first()) {
                assert forall|i: int| 0 <= i < s.len() implies white(#[trigger] s[i]) by {
                    if i > 0 {
                        assert(s.drop_first()[i - 1] == s[i]);
                    }
                }
            }
            if blank(s) {
                assert forall|i: int| 0 <= i < s.drop_first().len() implies white(
                    #[trigger] s.drop_first()[i],
                ) by {
                    assert(s.drop_first()[i] == s[i + 1]);
                }
            }
        }
    } else if s.len() > 0 {
        lemma_trim_end_keeps_first(s);
        assert(!white(s[0]));
    }
}

proof fn lemma_trim_end_keeps_first(s: Seq<char>)
    requires
        s.len() > 0,
        !white(s[0]),
    ensures
        trimmed_end(s).len() > 0,
    decreases s.len(),
{
    if white(s.last()) {
        lemma_trim_end_keeps_first(s.drop_last());
    }
}

/// The first place from `from` on where a character stands.
pub open spec fn first_at(s: Seq<char>, c: char, from: int) -> Option<int>
    decreases s.len() - from,
{
    if from < 0 || from >= s.len() {
        None
    } else if s[from] == c {
        Some(from)
    } else {
        first_at(s, c, from + 1)
    }
}

/// What stands before the first of a character; everything where there is
/// none.
pub open spec fn before(s: Seq<char>, c: char) -> Seq<char> {
    match first_at(s, c, 0) {
        Some(i) => s.take(i),
        None => s,
    }
}

pub fn part_before(s: &str, c: char) -> (r: Vec<char>)
    ensures
        r@ == before(s@, c),
{
    let cs = chars_of(s);
    let mut part: Vec<char> = Vec::new();
    let mut i: usize = 0;
    while i < cs.len() && cs[i] != c
        invariant
            i <= cs.len(),
            part@ == cs@.take(i as int),
            first_at(cs@, c, 0) == first_at(cs@, c, i as int),
        decreases cs.len() - i,
    {
        assert(cs@.take(i + 1) =~= cs@.take(i as int).push(cs@[i as int]));
        part.push(cs[i]);
        i = i + 1;
    }
    if i == cs.len() {
        assert(cs@.take(i as int) =~= cs@);
    }
    part
}

/// The digit of a number below ten.
pub open spec fn digit(d: nat) -> char {
    seq!['0', '1', '2', '3', '4', '5', '6', '7', '8', '9'][d as int]
}

/// A number in decimal digits.
pub open spec fn digits(n: nat) -> Seq<char>
    decreases n,
{
    if n < 10 {
        seq![digit(n)]
    } else {
        digits(n / 10).push(digit(n % 10))
    }
}

fn digit_char(d: u64) -> (c: char)
    requires
        d < 10,
    ensures
        c == digit(d as nat),
{
    match d {
        0 => '0',
        1 => '1',
        2 => '2',
        3 => '3',
        4 => '4',
        5 => '5',
        6 => '6',
        7 => '7',
        8 => '8',
        _ => '9',
    }
}

/// Write a number in decimal digits.
pub fn number_text(n: u64) -> (s: String)
    ensures
        s@ == digits(n as nat),
    decreases n,
{
    let mut s = if n < 10 {
        let s = String::new();
        assert(s@.push(digit(n as nat)) =~= digits(n as nat));
        s
    } else {
        number_text(n / 10)
    };
    s.push(digit_char(n % 10));
    s
}

/// So many zeros.
pub open spec fn zeros(n: nat) -> Seq<char> {
    Seq::new(n, |i: int| '0')
}

/// A number in at least `width` decimal digits.
pub open spec fn padded(n: nat, width: nat) -> Seq<char> {
    if digits(n).len() < width {
        zeros((width - digits(n).len()) as nat) + digits(n)
    } else {
        digits(n)
    }
}

/// Write a number in at least `width` decimal digits.
pub fn padded_text(n: u64, width: usize) -> (s: String)
    ensures
        s@ == padded(n as nat, width as nat),
{
    let text = number_text(n);
    let len: usize = chars_of(text.as_str()).len();
    let mut zero = String::new();
    let mut i: usize = len;
    while i < width
        invariant
            len <= i,
            i <= width || i == len,
            zero@ == zeros((i - len) as nat),
        decreases width - i,
    {
        zero.push('0');
        i = i + 1;
        assert(zero@ =~= zeros((i - len) as nat));
    }
    assert(zeros(0) + digits(n as nat) =~= digits(n as nat));
    zero.concat(text.as_str())
}

/// Write a signed number in decimal digits.
pub open spec fn signed(n: int) -> Seq<char> {
    if n < 0 {
        seq!['-'] + digits((-n) as nat)
    } else {
        digits(n as nat)
    }
}

pub fn signed_text(n: i64) -> (s: String)
    ensures
        s@ == signed(n as int),
{
    if n >= 0 {
        return number_text(n as u64);
    }
    let mut s = String::new();
    s.push('-');
    let body = number_text((-(n as i128)) as u64);
    s.append(body.as_str());
    assert(s@ =~= signed(n as int));
    s
}

/// Whether a character is a decimal digit.
pub open spec fn decimal_digit(c: char) -> bool {
    48 <= c as u32 <= 57
}

/// The number of a run of decimal digits.
pub open spec fn value_of(s: Seq<char>) -> nat
    decreases s.len(),
{
    if s.len() == 0 {
        0
    } else {
        (10 * value_of(s.drop_last()) + (s.last() as u32 - 48)) as nat
    }
}

/// The number that decimal digits write, none where there are none or
/// something else stands among them.
pub open spec fn natural(s: Seq<char>) -> Option<nat> {
    if s.len() > 0 && forall|i: int| 0 <= i < s.len() ==> decimal_digit(#[trigger] s[i]) {
        Some(value_of(s))
    } else {
        None
    }
}

/// The number that decimal digits write behind an optional plus sign, where it
/// fits into 64 bits.
pub open spec fn unsigned_of(s: Seq<char>) -> Option<u64> {
    let body = if s.len() > 0 && s[0] == '+' {
        s.skip(1)
    } else {
        s
    };
    match natural(body) {
        Some(n) => if n <= u64::MAX {
            Some(n as u64)
        } else {
            None
        },
        None => None,
    }
}

/// The number that decimal digits write behind an optional sign, where it fits
/// into 64 bits.
pub open spec fn signed_of(s: Seq<char>) -> Option<i64> {
    if s.len() > 0 && s[0] == '-' {
        match natural(s.skip(1)) {
            Some(n) => if n <= i64::MAX + 1 {
                Some((-n) as i64)
            } else {
                None
            },
            None => None,
        }
    } else {
        match unsigned_of(s) {
            Some(n) => if n <= i64::MAX {
                Some(n as i64)
            } else {
                None
            },
            None => None,
        }
    }
}

/// Read decimal digits from a place on.
fn read_digits(cs: &[char], from: usize) -> (r: Option<u64>)
    requires
        from <= cs.len(),
    ensures
        r == match natural(cs@.skip(from as int)) {
            Some(n) => if n <= u64::MAX {
                Some(n as u64)
            } else {
                None
            },
            None => None,
        },
{
    let ghost body = cs@.skip(from as int);
    if from == cs.len() {
        return None;
    }
    let mut n: u64 = 0;
    let mut fits = true;
    let mut i: usize = from;
    assert(body.take(0) =~= Seq::empty());
    while i < cs.len()
        invariant
            from <= i <= cs.len(),
            body == cs@.skip(from as int),
            forall|k: int| 0 <= k < i - from ==> decimal_digit(#[trigger] body[k]),
            fits ==> n == value_of(body.take(i - from)),
            !fits ==> value_of(body.take(i - from)) > u64::MAX,
        decreases cs.len() - i,
    {
        let c: u32 = cs[i] as u32;
        let ghost k = i - from;
        assert(body[k] == cs@[i as int]);
        if c < 48 || c > 57 {
            assert(!decimal_digit(body[k]));
            return None;
        }
        assert(body.take(k + 1).drop_last() =~= body.take(k));
        if fits {
            let next: u128 = n as u128 * 10 + (c - 48) as u128;
            if next <= u64::MAX as u128 {
                n = next as u64;
            } else {
                fits = false;
            }
        }
        i = i + 1;
    }
    assert(body.take(i - from) =~= body);
    if fits {
        Some(n)
    } else {
        None
    }
}

/// Read an unsigned number.
pub fn parse_unsigned(s: &str) -> (r: Option<u64>)
    ensures
        r == unsigned_of(s@),
{
    let cs = chars_of(s);
    let from: usize = if cs.len() > 0 && cs[0] == '+' {
        1
    } else {
        0
    };
    assert(cs@.skip(0) =~= cs@);
    read_digits(&cs, from)
}

/// Read a signed number.
pub fn parse_signed(s: &str) -> (r: Option<i64>)
    ensures
        r == signed_of(s@),
{
    let cs = chars_of(s);
    if cs.len() > 0 && cs[0] == '-' {
        return match read_digits(&cs, 1) {
            Some(n) => if n <= i64::MAX as u64 + 1 {
                Some((-(n as i128)) as i64)
            } else {
                None
            },
            None => None,
        };
    }
    match parse_unsigned(s) {
        Some(n) => if n <= i64::MAX as u64 {
            Some(n as i64)
        } else {
            None
        },
        None => None,
    }
}

proof fn lemma_digits(n: nat)
    ensures
        natural(digits(n)) == Some(n),
    decreases n,
{
    let s = digits(n);
    if n < 10 {
        assert(s.drop_last() =~= Seq::empty());
        assert(decimal_digit(s[0]) && s[0] as u32 - 48 == n);
        assert(value_of(s) == n) by {
            reveal_with_fuel(value_of, 2);
        }
    } else {
        lemma_digits(n / 10);
        assert(s.drop_last() =~= digits(n / 10));
        let d = digit(n % 10);
        assert(d as u32 - 48 == n % 10);
        assert forall|i: int| 0 <= i < s.len() implies decimal_digit(#[trigger] s[i]) by {
            if i < s.len() - 1 {
                assert(s[i] == digits(n / 10)[i]);
            }
        }
    }
}

/// A number that was written is read as it was.
pub proof fn written_numbers_are_read(n: i64)
    ensures
        signed_of(signed(n as int)) == Some(n),
{
    let s = signed(n as int);
    if n < 0 {
        lemma_digits((-n) as nat);
        assert(s.skip(1) =~= digits((-n) as nat));
    } else {
        lemma_digits(n as nat);
        assert(decimal_digit(s[0]));
    }
}

/// An unsigned number that was written is read as it was, also with zeros in
/// front, of which there are as many as the width asks for.
pub proof fn padded_numbers_are_read(n: u64, width: nat)
    ensures
        unsigned_of(padded(n as nat, width)) == Some(n),
        padded(n as nat, width).len() >= width,
        padded(n as nat, width).len() == width || padded(n as nat, width) == digits(n as nat),
{
    let d = digits(n as nat);
    lemma_digits(n as nat);
    let s = padded(n as nat, width);
    if d.len() < width {
        let k = (width - d.len()) as nat;
        lemma_zeros_in_front(k, d, d.len());
        assert(d.take(d.len() as int) =~= d);
        assert forall|i: int| 0 <= i < s.len() implies decimal_digit(#[trigger] s[i]) by {
            if i >= k {
                assert(s[i] == d[i - k]);
            }
        }
    }
    assert(decimal_digit(s[0]));
}

proof fn lemma_zeros_in_front(k: nat, d: Seq<char>, n: nat)
    requires
        n <= d.len(),
    ensures
        value_of(zeros(k) + d.take(n as int)) == value_of(d.take(n as int)),
    decreases n, k,
{
    let s = zeros(k) + d.take(n as int);
    if n > 0 {
        lemma_zeros_in_front(k, d, (n - 1) as nat);
        assert(s.drop_last() =~= zeros(k) + d.take(n - 1));
        assert(d.take(n as int).drop_last() =~= d.take(n - 1));
        assert(s.last() == d.take(n as int).last());
    } else {
        assert(d.take(0) =~= Seq::<char>::empty());
        if k > 0 {
            lemma_zeros_in_front((k - 1) as nat, d, 0);
            assert(s.drop_last() =~= zeros((k - 1) as nat) + d.take(0));
            assert(s.last() == '0');
        } else {
            assert(s =~= d.take(0));
        }
    }
}

/// Whether a text ends with another.
pub open spec fn has_end(s: Seq<char>, end: Seq<char>) -> bool {
    end.len() <= s.len() && s.skip(s.len() - end.len()) == end
}

/// The text before an ending.
pub fn without_end(s: &str, end: &str) -> (r: Option<String>)
    ensures
        match r {
            Some(rest) => has_end(s@, end@) && rest@ == s@.take(s@.len() - end@.len()),
            None => !has_end(s@, end@),
        },
{
    let cs = chars_of(s);
    let es = chars_of(end);
    if es.len() > cs.len() {
        return None;
    }
    let n: usize = cs.len() - es.len();
    if !matches_at(&cs, &es, n) {
        return None;
    }
    let rest = vstd::slice::slice_subrange(cs.as_slice(), 0, n);
    assert(rest@ =~= cs@.take(n as int));
    Some(text_of(rest))
}

} // verus!
