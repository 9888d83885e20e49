//! TOML documents that are changed in place: what they hold, and how one entry
//! is put into one.

use toml_edit::{Decor, DocumentMut, InlineTable, Item, Table, TomlError, Value};
use vstd::multiset::Multiset;
use vstd::prelude::*;
use vstd::string::*;

use crate::text::{chars_of, text_of};

verus! {

/// What stands at a key path of a TOML document.
pub enum TomlEntry {
    /// A table, whose own keys have paths of their own.
    Table,
    /// A table inside a line, whose own keys have paths of their own.
    Inline,
    Str(Seq<char>),
    Bool(bool),
    /// A number or a time.
    Scalar,
    /// An array, or an array of tables.
    Other,
}

/// The key paths of a document and what stands at each.
pub type TomlEntries = Map<Seq<Seq<char>>, TomlEntry>;

/// A TOML document.
#[verifier::external_type_specification]
#[verifier::external_body]
pub struct ExDocumentMut(DocumentMut);

/// What stands at a key of a document, or its root.
#[verifier::external_type_specification]
#[verifier::external_body]
pub struct ExItem(Item);

/// A TOML syntax error.
#[verifier::external_type_specification]
#[verifier::external_body]
pub struct ExTomlError(TomlError);

/// The blanks and comments around a value.
#[verifier::external_type_specification]
#[verifier::external_body]
pub struct ExDecor(Decor);

/// What a text holds, none where it is no TOML.
pub uninterp spec fn toml_entries(text: Seq<char>) -> Option<Map<Seq<Seq<char>>, TomlEntry>>;

/// What a document holds.
pub uninterp spec fn document_entries(d: DocumentMut) -> Map<Seq<Seq<char>>, TomlEntry>;

/// What a table holds, by paths that start inside it; nothing where the item
/// is no table.
pub uninterp spec fn item_entries(i: Item) -> Map<Seq<Seq<char>>, TomlEntry>;

/// What an item is.
pub uninterp spec fn item_kind(i: Item) -> TomlEntry;

/// The comments of a text.
pub uninterp spec fn toml_comments(text: Seq<char>) -> Multiset<Seq<char>>;

/// The comments that a document is written with.
pub uninterp spec fn document_comments(d: DocumentMut) -> Multiset<Seq<char>>;

/// The comments that an item is written with, those around a value left out.
pub uninterp spec fn item_comments(i: Item) -> Multiset<Seq<char>>;

/// The keys of the table at path `at` of a text that hold values (all but
/// tables of their own and arrays of such), in the order in which they are
/// written; none where no table stands there.
pub uninterp spec fn toml_keys(text: Seq<char>, at: Seq<Seq<char>>) -> Seq<Seq<char>>;

/// The same of a document.
pub uninterp spec fn document_keys(d: DocumentMut, at: Seq<Seq<char>>) -> Seq<Seq<char>>;

/// The same of an item, by a path that starts inside it.
pub uninterp spec fn item_keys(i: Item, at: Seq<Seq<char>>) -> Seq<Seq<char>>;

/// The headings of a text, in the order in which they are written.
pub uninterp spec fn toml_headings(text: Seq<char>) -> Seq<Seq<Seq<char>>>;

/// The headings that a document is written with, in their order.
pub uninterp spec fn document_headings(d: DocumentMut) -> Seq<Seq<Seq<char>>>;

/// Whether `b` comes from `a` by putting new items where nothing or a single
/// value is, at any depth.
pub uninterp spec fn item_grown(a: Item, b: Item) -> bool;

/// Whether the text that a document is written as reads back as what it holds.
pub uninterp spec fn document_prints(d: DocumentMut) -> bool;

/// Whether an item with `n` keys on the way to it is written as a text that
/// reads back as what it holds, what stands around a value left out.
pub uninterp spec fn item_prints(i: Item, n: nat) -> bool;

/// What stands before and behind a value; nothing where it is written with the
/// usual blanks.
pub type Around = (Option<Seq<char>>, Option<Seq<char>>);

/// What stands before and behind, by a decor.
pub uninterp spec fn decor_around(d: Decor) -> (Option<Seq<char>>, Option<Seq<char>>);

/// What stands around an item, none where it is no value.
pub uninterp spec fn item_around(i: Item) -> Option<(Option<Seq<char>>, Option<Seq<char>>)>;

/// What stands around the value at a key of a table, none where there is no
/// value.
pub uninterp spec fn around_at(i: Item, key: Seq<char>) -> Option<
    (Option<Seq<char>>, Option<Seq<char>>),
>;

/// The most keys of an entry that is written: more are not read, neither in a
/// table's heading nor one inside the other.
pub const MOST_KEYS: usize = 79;

/// The most quotes in a row in a text for which a way of writing is looked up.
pub const MOST_QUOTES: usize = 255;

pub open spec fn is_table(e: TomlEntry) -> bool {
    e is Table || e is Inline
}

pub open spec fn is_table_key(m: TomlEntries, k: Seq<char>) -> bool {
    m.dom().contains(seq![k]) && is_table(m[seq![k]])
}

/// What stands below key `k`, by paths that start inside it; nothing where no
/// table stands there.
pub open spec fn below(m: TomlEntries, k: Seq<char>) -> TomlEntries {
    Map::new(
        |p: Seq<Seq<char>>| is_table_key(m, k) && p.len() > 0 && m.dom().contains(seq![k] + p),
        |p: Seq<Seq<char>>| m[seq![k] + p],
    )
}

/// The entries with everything at and below key `k` replaced: `e` stands at
/// it, and `sub` below it.
pub open spec fn replaced(m: TomlEntries, k: Seq<char>, e: TomlEntry, sub: TomlEntries)
    -> TomlEntries {
    Map::new(
        |p: Seq<Seq<char>>|
            p.len() > 0 && (if p[0] == k {
                p.len() == 1 || sub.dom().contains(p.drop_first())
            } else {
                m.dom().contains(p)
            }),
        |p: Seq<Seq<char>>|
            if p[0] == k {
                if p.len() == 1 {
                    e
                } else {
                    sub[p.drop_first()]
                }
            } else {
                m[p]
            },
    )
}

/// Whether the way to a path leads through tables alone.
pub open spec fn reachable(m: TomlEntries, p: Seq<Seq<char>>) -> bool {
    &&& p.len() > 0
    &&& forall|n: int| 0 < n < p.len() ==> {
        let way = #[trigger] p.take(n);
        m.dom().contains(way) && is_table(m[way])
    }
}

/// Whether the way to each entry leads through tables alone.
pub open spec fn rooted(m: TomlEntries) -> bool {
    forall|p: Seq<Seq<char>>| #[trigger] m.dom().contains(p) ==> reachable(m, p)
}

/// The number of quotes of one sort at the end of a text.
pub open spec fn quotes_at_end(s: Seq<char>, quote: char) -> nat
    decreases s.len(),
{
    if s.len() > 0 && s.last() == quote {
        quotes_at_end(s.drop_last(), quote) + 1
    } else {
        0
    }
}

/// Whether no run of quotes of one sort in a text is longer than
/// `MOST_QUOTES`.
pub open spec fn few_quotes(s: Seq<char>) -> bool {
    forall|n: int|
        0 <= n <= s.len() ==> quotes_at_end(#[trigger] s.take(n), '"') <= MOST_QUOTES
            && quotes_at_end(s.take(n), '\'') <= MOST_QUOTES
}

/// `str::parse` into a `toml_edit::DocumentMut` reads the text's entries, or
/// fails where it is no TOML. The way to each entry leads through tables, and
/// the document is written as a text that reads back the same, with the same
/// comments, and the headings and the values of each table in the same order.
#[verifier::external_body]
pub(crate) fn parse_document(text: &str) -> (r: Result<DocumentMut, TomlError>)
    ensures
        match r {
            Ok(d) => {
                &&& toml_entries(text@) == Some(document_entries(d))
                &&& rooted(document_entries(d))
                &&& document_prints(d)
                &&& document_comments(d) == toml_comments(text@)
                &&& document_headings(d) == toml_headings(text@)
                &&& forall|at: Seq<Seq<char>>| #[trigger]
                    document_keys(d, at) == toml_keys(text@, at)
            },
            Err(_) => toml_entries(text@) is None,
        },
{
    text.parse::<DocumentMut>()
}

/// `DocumentMut::to_string` writes a text that reads back as the same entries,
/// with the document's comments, and the headings and the values of each table
/// in their order. The order of values of different tables under one heading is
/// left unsaid: keys with dots that begin alike are written next to each other.
#[verifier::external_body]
pub(crate) fn document_text(d: &DocumentMut) -> (s: String)
    requires
        document_prints(*d),
    ensures
        toml_entries(s@) == Some(document_entries(*d)),
        toml_comments(s@) == document_comments(*d),
        toml_headings(s@) == document_headings(*d),
        forall|at: Seq<Seq<char>>| #[trigger] toml_keys(s@, at) == document_keys(*d, at),
{
    d.to_string()
}

/// `DocumentMut::as_item_mut` lends the document's root table. While it only
/// grows, the headings keep their order, new ones between them.
#[verifier::external_body]
pub(crate) fn root_item(d: &mut DocumentMut) -> (i: &mut Item)
    ensures
        item_kind(*i) is Table,
        item_entries(*i) == document_entries(*old(d)),
        document_prints(*old(d)) ==> item_prints(*i, 0),
        forall|at: Seq<Seq<char>>| #[trigger] item_keys(*i, at) == document_keys(*old(d), at),
        item_grown(*i, *i),
        item_kind(*final(i)) is Table ==> document_entries(*final(d)) == item_entries(*final(i)),
        item_kind(*final(i)) is Table ==> forall|at: Seq<Seq<char>>| #[trigger]
            document_keys(*final(d), at) == item_keys(*final(i), at),
        item_grown(*i, *final(i)) ==> within(
            document_headings(*old(d)),
            document_headings(*final(d)),
        ),
        item_kind(*final(i)) is Table && item_prints(*final(i), 0) ==> document_prints(*final(d)),
        item_kind(*final(i)) is Table && item_comments(*final(i)) == item_comments(*i)
            ==> document_comments(*final(d)) == document_comments(*old(d)),
{
    d.as_item_mut()
}

/// What stands at a key.
#[derive(Debug, Clone, Copy, PartialEq, Eq, Structural)]
pub enum KeyState {
    Missing,
    Table,
    Inline,
    Other,
}

pub open spec fn key_state(m: TomlEntries, k: Seq<char>) -> KeyState {
    if !m.dom().contains(seq![k]) {
        KeyState::Missing
    } else {
        match m[seq![k]] {
            TomlEntry::Table => KeyState::Table,
            TomlEntry::Inline => KeyState::Inline,
            _ => KeyState::Other,
        }
    }
}

/// `Item::get` tells what stands at a key of a table.
#[verifier::external_body]
pub(crate) fn state_at(i: &Item, key: &str) -> (r: KeyState)
    ensures
        r == key_state(item_entries(*i), key@),
{
    match i.get(key) {
        None => KeyState::Missing,
        Some(Item::Table(_)) => KeyState::Table,
        Some(Item::Value(Value::InlineTable(_))) => KeyState::Inline,
        Some(_) => KeyState::Other,
    }
}

/// `Item::get_mut` lends the table at a key, with one key more on the way to
/// it. What the borrower leaves there stands there, as long as it is a table
/// of the same sort with the same around it.
#[verifier::external_body]
pub(crate) fn table_at<'a>(i: &'a mut Item, key: &str) -> (r: &'a mut Item)
    requires
        is_table_key(item_entries(*old(i)), key@),
    ensures
        item_kind(*r) == item_entries(*old(i))[seq![key@]],
        item_entries(*r) == below(item_entries(*old(i)), key@),
        forall|n: nat| #[trigger] item_prints(*old(i), n) ==> item_prints(*r, n + 1),
        forall|at: Seq<Seq<char>>| #[trigger]
            item_keys(*r, at) == item_keys(*old(i), seq![key@] + at),
        item_grown(*r, *r),
        item_kind(*final(r)) == item_kind(*r) && item_around(*final(r)) == item_around(*r) ==> {
            &&& item_kind(*final(i)) == item_kind(*old(i))
            &&& item_around(*final(i)) == item_around(*old(i))
            &&& item_entries(*final(i)) == replaced(
                item_entries(*old(i)),
                key@,
                item_kind(*final(r)),
                item_entries(*final(r)),
            )
            &&& forall|n: nat|
                #[trigger] item_prints(*old(i), n) && item_prints(*final(r), n + 1)
                    ==> item_prints(*final(i), n)
            &&& item_comments(*final(r)) == item_comments(*r) ==> item_comments(*final(i))
                == item_comments(*old(i))
            &&& item_grown(*r, *final(r)) ==> grows(*old(i), *final(i))
            &&& forall|at: Seq<Seq<char>>| #[trigger]
                item_keys(*final(i), at) == if at.len() > 0 && at[0] == key@ {
                    item_keys(*final(r), at.drop_first())
                } else {
                    item_keys(*old(i), at)
                }
        },
{
    i.get_mut(key).expect("table")
}

/// What can be written at a key.
#[derive(Debug, Clone, Copy)]
pub enum NewEntry<'a> {
    Str(&'a str),
    Bool(bool),
    /// An empty table inside a line.
    Inline,
    /// An empty table.
    Table,
}

pub open spec fn new_entry(n: NewEntry<'_>) -> TomlEntry {
    match n {
        NewEntry::Str(s) => TomlEntry::Str(s@),
        NewEntry::Bool(b) => TomlEntry::Bool(b),
        NewEntry::Inline => TomlEntry::Inline,
        NewEntry::Table => TomlEntry::Table,
    }
}

fn has_few_quotes(s: &str) -> (r: bool)
    ensures
        r == few_quotes(s@),
{
    let cs = chars_of(s);
    let mut double: usize = 0;
    let mut single: usize = 0;
    let mut i: usize = 0;
    assert(cs@.take(0) =~= Seq::<char>::empty());
    while i < cs.len()
        invariant
            i <= cs.len(),
            cs@ == s@,
            double == quotes_at_end(cs@.take(i as int), '"'),
            single == quotes_at_end(cs@.take(i as int), '\''),
            double <= MOST_QUOTES,
            single <= MOST_QUOTES,
            forall|n: int|
                0 <= n <= i ==> quotes_at_end(#[trigger] s@.take(n), '"') <= MOST_QUOTES
                    && quotes_at_end(s@.take(n), '\'') <= MOST_QUOTES,
        decreases cs.len() - i,
    {
        assert(cs@.take(i + 1).drop_last() =~= cs@.take(i as int));
        assert(cs@.take(i + 1).last() == cs@[i as int]);
        double = if cs[i] == '"' {
            double + 1
        } else {
            0
        };
        single = if cs[i] == '\'' {
            single + 1
        } else {
            0
        };
        if double > MOST_QUOTES || single > MOST_QUOTES {
            assert(!few_quotes(s@)) by {
                assert(s@.take(i + 1) == cs@.take(i + 1));
            }
            return false;
        }
        i = i + 1;
    }
    true
}

/// `Item::is_inline_table`: whether an item is a table inside a line.
#[verifier::external_body]
pub(crate) fn is_inline(i: &Item) -> (r: bool)
    ensures
        r == (item_kind(*i) is Inline),
{
    i.is_inline_table()
}

/// Whether what grew to `before` grew to `after` as well.
pub open spec fn grows(before: Item, after: Item) -> bool {
    forall|a: Item| #[trigger] item_grown(a, before) ==> item_grown(a, after)
}

/// Whether what `a` holds stands in `b` too, in the same order.
pub open spec fn within(a: Seq<Seq<Seq<char>>>, b: Seq<Seq<Seq<char>>>) -> bool
    decreases b.len(),
{
    if a.len() == 0 {
        true
    } else if b.len() == 0 {
        false
    } else {
        ||| a.last() == b.last() && within(a.drop_last(), b.drop_last())
        ||| within(a, b.drop_last())
    }
}

pub proof fn within_itself(a: Seq<Seq<Seq<char>>>)
    ensures
        within(a, a),
    decreases a.len(),
{
    if a.len() > 0 {
        within_itself(a.drop_last());
    }
}

pub proof fn within_in_turn(
    a: Seq<Seq<Seq<char>>>,
    b: Seq<Seq<Seq<char>>>,
    c: Seq<Seq<Seq<char>>>,
)
    requires
        within(a, b),
        within(b, c),
    ensures
        within(a, c),
    decreases c.len(),
{
    if a.len() > 0 {
        if within(b, c.drop_last()) {
            within_in_turn(a, b, c.drop_last());
        } else if within(a, b.drop_last()) {
            within_in_turn(a, b.drop_last(), c.drop_last());
        } else {
            within_in_turn(a.drop_last(), b.drop_last(), c.drop_last());
        }
    }
}

/// Whether `b` begins with `a`.
pub open spec fn extends(a: Seq<Seq<char>>, b: Seq<Seq<char>>) -> bool {
    a.len() <= b.len() && forall|i: int| 0 <= i < a.len() ==> #[trigger] b[i] == a[i]
}

/// A digit of a number in the sixteens.
pub open spec fn hex_digit(n: int) -> char {
    if n < 10 {
        (48 + n) as char
    } else {
        (55 + n) as char
    }
}

/// A character inside quotes: a quote, a backslash or a control character as
/// its escape, any other as it is.
pub open spec fn escaped(c: char) -> Seq<char> {
    if c == '"' || c == '\\' {
        seq!['\\', c]
    } else if (c as u32) < 32 || c as u32 == 127 {
        seq!['\\', 'u', '0', '0', hex_digit(c as u32 as int / 16), hex_digit(c as u32 as int % 16)]
    } else {
        seq![c]
    }
}

pub open spec fn all_escaped(s: Seq<char>) -> Seq<char>
    decreases s.len(),
{
    if s.len() == 0 {
        Seq::empty()
    } else {
        all_escaped(s.drop_last()) + escaped(s.last())
    }
}

/// A text in quotes.
pub open spec fn quoted(s: Seq<char>) -> Seq<char> {
    seq!['"'] + all_escaped(s) + seq!['"']
}

fn hex_char(n: u32) -> (c: char)
    requires
        n < 16,
    ensures
        c == hex_digit(n as int),
{
    match n {
        0 => '0',
        1 => '1',
        2 => '2',
        3 => '3',
        4 => '4',
        5 => '5',
        6 => '6',
        7 => '7',
        8 => '8',
        9 => '9',
        10 => 'A',
        11 => 'B',
        12 => 'C',
        13 => 'D',
        14 => 'E',
        _ => 'F',
    }
}

fn quote(s: &str) -> (r: String)
    ensures
        r@ == quoted(s@),
{
    let cs = chars_of(s);
    let mut out: Vec<char> = Vec::new();
    out.push('"');
    let mut i: usize = 0;
    assert(cs@.take(0) =~= Seq::<char>::empty());
    assert(out@ =~= seq!['"'] + all_escaped(cs@.take(0)));
    while i < cs.len()
        invariant
            i <= cs.len(),
            out@ == seq!['"'] + all_escaped(cs@.take(i as int)),
        decreases cs.len() - i,
    {
        let ghost before = out@;
        let c: char = cs[i];
        let code: u32 = c as u32;
        if c == '"' || c == '\\' {
            out.push('\\');
            out.push(c);
        } else if code < 32 || code == 127 {
            out.push('\\');
            out.push('u');
            out.push('0');
            out.push('0');
            out.push(hex_char(code / 16));
            out.push(hex_char(code % 16));
        } else {
            out.push(c);
        }
        assert(out@ =~= before + escaped(c));
        assert(cs@.take(i + 1).drop_last() =~= cs@.take(i as int));
        assert(out@ =~= seq!['"'] + all_escaped(cs@.take(i + 1)));
        i = i + 1;
    }
    assert(cs@.take(i as int) =~= s@);
    out.push('"');
    text_of(out.as_slice())
}

/// Whether an item holds no keys and no comments, and can be written anywhere.
pub open spec fn is_fresh(i: Item) -> bool {
    &&& item_entries(i) == Map::<Seq<Seq<char>>, TomlEntry>::empty()
    &&& item_comments(i) == Multiset::<Seq<char>>::empty()
    &&& forall|at: Seq<Seq<char>>| #[trigger] item_keys(i, at) == Seq::<Seq<char>>::empty()
    &&& forall|n: nat| n <= MOST_KEYS ==> #[trigger] item_prints(i, n)
}

/// Whether an item is what is to be written, with the usual blanks around it.
spec fn is_made_of(i: Item, new: NewEntry<'_>) -> bool {
    &&& is_fresh(i)
    &&& item_kind(i) == new_entry(new)
    &&& item_around(i) == if new is Table {
        None::<Around>
    } else {
        Some((None, None))
    }
}

/// `toml_edit::value` of a text, of a truth value and of `InlineTable::new`, and
/// `Table::new` as an `Item`, give a new item. How a text is written is looked
/// up by its quotes in a row, which are counted up to `MOST_QUOTES`.
#[verifier::external_body]
fn new_item(new: NewEntry<'_>) -> (i: Item)
    requires
        new matches NewEntry::Str(s) ==> few_quotes(s@),
    ensures
        is_made_of(i, new),
{
    match new {
        NewEntry::Str(s) => toml_edit::value(s),
        NewEntry::Bool(b) => toml_edit::value(b),
        NewEntry::Inline => toml_edit::value(InlineTable::new()),
        NewEntry::Table => Item::Table(Table::new()),
    }
}

/// `str::parse` into a `toml_edit::Value` reads a text in quotes, which is
/// written as it was read.
#[verifier::external_body]
fn quoted_item(raw: &str) -> (i: Item)
    requires
        exists|s: Seq<char>| raw@ == #[trigger] quoted(s),
    ensures
        forall|s: Seq<char>|
            raw@ == #[trigger] quoted(s) ==> item_kind(i) == TomlEntry::Str(s),
        is_fresh(i),
        item_around(i) == Some::<Around>((None, None)),
{
    Item::Value(raw.parse::<Value>().expect("text"))
}

/// A new item, whatever is to be written.
fn make_item(new: NewEntry<'_>) -> (i: Item)
    ensures
        is_made_of(i, new),
{
    match new {
        NewEntry::Str(s) => {
            if !has_few_quotes(s) {
                let raw = quote(s);
                assert(raw@ == quoted(s@));
                return quoted_item(raw.as_str());
            }
        },
        _ => {},
    }
    new_item(new)
}

/// Whether an entry is a single value.
pub open spec fn is_single(e: TomlEntry) -> bool {
    e is Str || e is Bool || e is Scalar
}

/// Whether writing at key `k` of a table takes nothing away but a single value.
pub open spec fn mild(m: TomlEntries, k: Seq<char>) -> bool {
    m.dom().contains(seq![k]) ==> is_single(m[seq![k]])
}

/// `Item::get` with `Value::decor` gives what stands around the value at a key:
/// of a single value in any case, and nothing where nothing is.
#[verifier::external_body]
fn decor_at(i: &Item, key: &str) -> (r: Option<Decor>)
    ensures
        match r {
            Some(d) => around_at(*i, key@) == Some(decor_around(d)),
            None => around_at(*i, key@) is None,
        },
        item_entries(*i).dom().contains(seq![key@]) && is_single(item_entries(*i)[seq![key@]])
            ==> r is Some,
        !item_entries(*i).dom().contains(seq![key@]) ==> r is None,
{
    i.get(key).and_then(|item| item.as_value()).map(|v| v.decor().clone())
}

/// `Value::decor_mut` sets what stands around a value, and nothing else.
#[verifier::external_body]
fn set_decor(i: &mut Item, d: Decor)
    requires
        item_around(*old(i)) is Some,
    ensures
        item_around(*final(i)) == Some(decor_around(d)),
        item_kind(*final(i)) == item_kind(*old(i)),
        is_fresh(*old(i)) ==> is_fresh(*final(i)),
{
    *i.as_value_mut().expect("value").decor_mut() = d;
}

/// Assigning through `Item`'s index puts a new item at a key of a table, in
/// place of anything there. It stands where the old one stood, or behind all
/// others. What was around the old value, or nothing special, is around the new
/// one. A table of its own is put only where nothing is, since the comment
/// before a value's key does not fit into a table's heading.
#[verifier::external_body]
fn assign(i: &mut Item, key: &str, new: Item)
    requires
        is_table(item_kind(*old(i))),
        is_fresh(new),
        item_kind(new) is Str || item_kind(new) is Bool || is_table(item_kind(new)),
        item_kind(new) is Table ==> item_kind(*old(i)) is Table && !item_entries(
            *old(i),
        ).dom().contains(seq![key@]),
        item_kind(new) is Table || item_around(new) == Some::<Around>((None, None)) || item_around(
            new,
        ) == around_at(*old(i), key@),
    ensures
        item_kind(*final(i)) == item_kind(*old(i)),
        item_around(*final(i)) == item_around(*old(i)),
        item_entries(*final(i)) == replaced(
            item_entries(*old(i)),
            key@,
            item_kind(new),
            Map::empty(),
        ),
        forall|n: nat|
            n < MOST_KEYS && #[trigger] item_prints(*old(i), n) ==> item_prints(*final(i), n),
        mild(item_entries(*old(i)), key@) && (item_entries(*old(i)).dom().contains(seq![key@])
            ==> item_around(new) == around_at(*old(i), key@)) ==> item_comments(*final(i))
            == item_comments(*old(i)),
        mild(item_entries(*old(i)), key@) ==> forall|at: Seq<Seq<char>>| #[trigger]
            item_keys(*final(i), at) == if at.len() == 0 && !item_entries(
                *old(i),
            ).dom().contains(seq![key@]) && !(item_kind(new) is Table) {
                item_keys(*old(i), at).push(key@)
            } else {
                item_keys(*old(i), at)
            },
        mild(item_entries(*old(i)), key@) ==> grows(*old(i), *final(i)),
{
    i[key] = new;
}

/// Put an entry at a key of a table, in place of anything there. The blanks and
/// the comment around a value there stay around the new one, so that no comment
/// is lost with a single value.
pub(crate) fn put(i: &mut Item, key: &str, new: NewEntry<'_>)
    requires
        is_table(item_kind(*old(i))),
        new is Table ==> item_kind(*old(i)) is Table && !item_entries(*old(i)).dom().contains(
            seq![key@],
        ),
    ensures
        item_kind(*final(i)) == item_kind(*old(i)),
        item_around(*final(i)) == item_around(*old(i)),
        item_entries(*final(i)) == replaced(
            item_entries(*old(i)),
            key@,
            new_entry(new),
            Map::empty(),
        ),
        forall|n: nat|
            n < MOST_KEYS && #[trigger] item_prints(*old(i), n) ==> item_prints(*final(i), n),
        mild(item_entries(*old(i)), key@) ==> item_comments(*final(i)) == item_comments(*old(i)),
        mild(item_entries(*old(i)), key@) ==> forall|at: Seq<Seq<char>>|
            extends(item_keys(*old(i), at), #[trigger] item_keys(*final(i), at)),
        mild(item_entries(*old(i)), key@) ==> grows(*old(i), *final(i)),
{
    let mut item = make_item(new);
    match decor_at(i, key) {
        Some(d) => set_decor(&mut item, d),
        None => {},
    }
    assign(i, key, item);
}

} // verus!
