use vstd::prelude::*;
use vstd::string::StringExecFns;

verus! {

/// `core::fmt::Error`, the error that a failed rendering reports; the library
/// only passes it on.
#[verifier::external_type_specification]
#[verifier::external_body]
pub struct ExFmtError(core::fmt::Error);

/// The characters of `items`, with `sep` between each two of them.
pub open spec fn join(items: Seq<Seq<char>>, sep: Seq<char>) -> Seq<char>
    decreases items.len(),
{
    if items.len() == 0 {
        Seq::empty()
    } else if items.len() == 1 {
        items[0]
    } else {
        join(items.drop_last(), sep) + sep + items.last()
    }
}

/// Joining one more item appends the separator (if something came before) and the item.
pub proof fn lemma_join_push(items: Seq<Seq<char>>, sep: Seq<char>, x: Seq<char>)
    ensures
        join(items.push(x), sep) == if items.len() == 0 {
            x
        } else {
            join(items, sep) + sep + x
        },
{
    assert(items.push(x).drop_last() =~= items);
    if items.len() == 0 {
        assert(items.push(x).len() == 1);
    }
}

/// `", "`, the separator that all composite renderings use between items.
pub open spec fn comma_sep() -> Seq<char> {
    seq![',', ' ']
}

/// How a struct field or map entry renders: `key: value`.
pub open spec fn entry_repr(key: Seq<char>, value: Seq<char>) -> Seq<char> {
    key + seq![':', ' '] + value
}

/// A tuple-like value: `Name(a, b)`; only the name when there are no fields;
/// `(a,)` when the name is empty and there is exactly one field.
pub open spec fn tuple_repr(name: Seq<char>, fields: Seq<Seq<char>>) -> Seq<char> {
    if fields.len() == 0 {
        name
    } else if fields.len() == 1 && name.len() == 0 {
        name + seq!['('] + fields[0] + seq![',', ')']
    } else {
        name + seq!['('] + join(fields, comma_sep()) + seq![')']
    }
}

/// A struct-like value: `Name { a: x, b: y }`; only the name when there are no fields.
pub open spec fn struct_repr(name: Seq<char>, fields: Seq<Seq<char>>) -> Seq<char> {
    if fields.len() == 0 {
        name
    } else {
        name + seq![' ', '{', ' '] + join(fields, comma_sep()) + seq![' ', '}']
    }
}

/// A delimited collection: `open` items separated by `", "` then `close`.
pub open spec fn delimited_repr(open: char, items: Seq<Seq<char>>, close: char) -> Seq<char> {
    seq![open] + join(items, comma_sep()) + seq![close]
}

/// `[a, b, c]`
pub open spec fn list_repr(items: Seq<Seq<char>>) -> Seq<char> {
    delimited_repr('[', items, ']')
}

/// `{a, b, c}`
pub open spec fn set_repr(items: Seq<Seq<char>>) -> Seq<char> {
    delimited_repr('{', items, '}')
}

/// `{k1: v1, k2: v2}`, where `entries` are already rendered as `entry_repr`.
pub open spec fn map_repr(entries: Seq<Seq<char>>) -> Seq<char> {
    delimited_repr('{', entries, '}')
}

/// Calls `String::push`, which appends one character to the end of the string.
#[verifier::external_body]
pub(crate) fn string_push(s: &mut String, c: char)
    ensures
        final(s)@ == old(s)@.push(c),
{
    s.push(c);
}

/// The output buffer that telemetry representations are written into.
///
/// Its view is the text written so far. Writing never fails: the buffer is owned.
pub struct TelemetryFormatter {
    buf: String,
}

impl View for TelemetryFormatter {
    type V = Seq<char>;

    closed spec fn view(&self) -> Seq<char> {
        self.buf@
    }
}

impl TelemetryFormatter {
    /// An empty buffer.
    pub fn new() -> (f: TelemetryFormatter)
        ensures
            f@ == Seq::<char>::empty(),
    {
        TelemetryFormatter { buf: String::new() }
    }

    /// Appends `s` verbatim.
    pub fn write_str(&mut self, s: &str)
        ensures
            final(self)@ == old(self)@ + s@,
    {
        self.buf.append(s);
    }

    /// Appends one character.
    pub fn write_char(&mut self, c: char)
        ensures
            final(self)@ == old(self)@.push(c),
    {
        string_push(&mut self.buf, c);
    }

    /// The text written so far.
    pub fn as_str(&self) -> (s: &str)
        ensures
            s@ == self@,
    {
        self.buf.as_str()
    }

    /// Gives up the buffer and returns the text written into it.
    pub fn into_string(self) -> (s: String)
        ensures
            s@ == self@,
    {
        self.buf
    }
}

/// Law: the shapes of composite renderings, as `std`'s debug builders write
/// them. Items are separated by `, ` (joining one more item appends the
/// separator and the item); a field or entry is `key: value`; a tuple is
/// `Name(a)`, `Name(a, b)`, or `(a,)` without a name; a struct is
/// `Name { a }`, `Name { a, b }`; either is just `Name` without fields; lists,
/// sets and maps are `[a, b]`, `{a, b}`, `{a, b}`, and `[]`, `{}` when empty.
pub proof fn law_composite_shapes(
    name: Seq<char>,
    a: Seq<char>,
    b: Seq<char>,
    items: Seq<Seq<char>>,
    x: Seq<char>,
)
    ensures
        join(Seq::empty(), comma_sep()) == Seq::<char>::empty(),
        join(seq![a], comma_sep()) == a,
        items.len() > 0 ==> join(items.push(x), comma_sep()) == join(items, comma_sep()) + seq![',', ' ']
            + x,
        entry_repr(a, b) == a + seq![':', ' '] + b,
        tuple_repr(name, Seq::empty()) == name,
        name.len() > 0 ==> tuple_repr(name, seq![a]) == name + seq!['('] + a + seq![')'],
        tuple_repr(Seq::empty(), seq![a]) == seq!['('] + a + seq![',', ')'],
        tuple_repr(name, seq![a, b]) == name + seq!['('] + a + seq![',', ' '] + b + seq![')'],
        struct_repr(name, Seq::empty()) == name,
        struct_repr(name, seq![a]) == name + seq![' ', '{', ' '] + a + seq![' ', '}'],
        struct_repr(name, seq![a, b]) == name + seq![' ', '{', ' '] + a + seq![',', ' '] + b + seq![
            ' ',
            '}',
        ],
        list_repr(Seq::empty()) == seq!['[', ']'],
        list_repr(seq![a, b]) == seq!['['] + a + seq![',', ' '] + b + seq![']'],
        set_repr(Seq::empty()) == seq!['{', '}'],
        set_repr(seq![a, b]) == seq!['{'] + a + seq![',', ' '] + b + seq!['}'],
        map_repr(Seq::empty()) == seq!['{', '}'],
        map_repr(seq![a, b]) == seq!['{'] + a + seq![',', ' '] + b + seq!['}'],
{
    lemma_join_push(items, comma_sep(), x);
    let two = seq![a, b];
    assert(two.drop_last() =~= seq![a]);
    assert(join(seq![a], comma_sep()) == a);
    assert(two.last() == b);
    assert(join(two, comma_sep()) == join(two.drop_last(), comma_sep()) + comma_sep() + two.last());
    assert(join(two, comma_sep()) == a + seq![',', ' '] + b);
    assert(seq!['('] + a + seq![',', ')'] =~= Seq::<char>::empty() + seq!['('] + a + seq![',', ')']);
    assert(name + seq!['('] + (a + seq![',', ' '] + b) + seq![')'] =~= name + seq!['('] + a + seq![
        ',',
        ' ',
    ] + b + seq![')']);
    assert(name + seq![' ', '{', ' '] + (a + seq![',', ' '] + b) + seq![' ', '}'] =~= name + seq![
        ' ',
        '{',
        ' ',
    ] + a + seq![',', ' '] + b + seq![' ', '}']);
    assert(seq!['['] + (a + seq![',', ' '] + b) + seq![']'] =~= seq!['['] + a + seq![',', ' '] + b
        + seq![']']);
    assert(seq!['{'] + (a + seq![',', ' '] + b) + seq!['}'] =~= seq!['{'] + a + seq![',', ' '] + b
        + seq!['}']);
    assert(seq!['['] + Seq::<char>::empty() + seq![']'] =~= seq!['[', ']']);
    assert(seq!['{'] + Seq::<char>::empty() + seq!['}'] =~= seq!['{', '}']);
}

} // verus!
