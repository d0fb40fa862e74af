use vstd::prelude::*;

use crate::formatter::{
    comma_sep, delimited_repr, entry_repr, join, lemma_join_push, struct_repr, tuple_repr,
    TelemetryFormatter,
};
use crate::to_telemetry::ToTelemetry;

use core::fmt::Error as FmtError;

verus! {

/// What a tuple builder has written after its name: nothing, or `(` and the fields so far.
pub open spec fn tuple_body(fields: Seq<Seq<char>>) -> Seq<char> {
    if fields.len() == 0 {
        Seq::empty()
    } else {
        seq!['('] + join(fields, comma_sep())
    }
}

/// What a struct builder has written after its name: nothing, or ` { ` and the fields so far.
pub open spec fn struct_body(fields: Seq<Seq<char>>) -> Seq<char> {
    if fields.len() == 0 {
        Seq::empty()
    } else {
        seq![' ', '{', ' '] + join(fields, comma_sep())
    }
}

/// Appending one item to a partly written `join` keeps it a `join`.
proof fn lemma_body_push(prefix: Seq<char>, open: Seq<char>, items: Seq<Seq<char>>, x: Seq<char>)
    ensures
        (if items.len() == 0 {
            prefix + open + x
        } else {
            prefix + open + join(items, comma_sep()) + comma_sep() + x
        }) == prefix + open + join(items.push(x), comma_sep()),
{
    lemma_join_push(items, comma_sep(), x);
    if items.len() == 0 {
        assert(prefix + open + x =~= prefix + open + join(items.push(x), comma_sep()));
    } else {
        assert(prefix + open + join(items, comma_sep()) + comma_sep() + x =~= prefix + open + (join(
            items,
            comma_sep(),
        ) + comma_sep() + x));
    }
}

/// Writes `Name(a, b, ...)` field by field, as `Formatter::debug_tuple` does.
pub struct DebugTuple {
    result: Result<(), FmtError>,
    has_fields: bool,
    single: bool,
    empty_name: bool,
    start: Ghost<Seq<char>>,
    name: Ghost<Seq<char>>,
    fields: Ghost<Seq<Seq<char>>>,
}

impl DebugTuple {
    /// The text that preceded the tuple.
    pub closed spec fn start(&self) -> Seq<char> {
        self.start@
    }

    /// The tuple's name.
    pub closed spec fn name(&self) -> Seq<char> {
        self.name@
    }

    /// The renderings of the fields written so far.
    pub closed spec fn fields(&self) -> Seq<Seq<char>> {
        self.fields@
    }

    /// Whether a field's rendering has failed; nothing more is written then.
    pub closed spec fn failed(&self) -> bool {
        self.result is Err
    }

    /// The builder agrees with the text `out` of the formatter it writes into
    /// (or a rendering has failed).
    pub closed spec fn inv(&self, out: Seq<char>) -> bool {
        self.failed() || self.text_inv(out)
    }

    closed spec fn text_inv(&self, out: Seq<char>) -> bool {
        &&& self.has_fields == (self.fields@.len() > 0)
        &&& self.single == (self.fields@.len() == 1)
        &&& self.empty_name == (self.name@.len() == 0)
        &&& out == self.start@ + self.name@ + tuple_body(self.fields@)
    }

    /// Writes the name and starts a tuple with no fields.
    pub fn new(f: &mut TelemetryFormatter, name: &str) -> (t: DebugTuple)
        ensures
            t.inv(final(f)@),
            t.start() == old(f)@,
            t.name() == name@,
            t.fields() == Seq::<Seq<char>>::empty(),
            !t.failed(),
    {
        f.write_str(name);
        DebugTuple {
            result: Ok(()),
            has_fields: false,
            single: false,
            empty_name: name.is_empty(),
            start: Ghost(old(f)@),
            name: Ghost(name@),
            fields: Ghost(Seq::empty()),
        }
    }

    /// Writes the separator that precedes one more field.
    fn open_field(&mut self, f: &mut TelemetryFormatter)
        requires
            old(self).text_inv(old(f)@),
        ensures
            final(f)@ == old(self).start() + old(self).name() + (if old(self).fields().len() == 0 {
                seq!['(']
            } else {
                seq!['('] + join(old(self).fields(), comma_sep()) + comma_sep()
            }),
            *final(self) == *old(self),
    {
        if self.has_fields {
            proof {
                reveal_strlit(", ");
            }
            f.write_str(", ");
        } else {
            f.write_char('(');
        }
    }

    /// Renders one more field through its telemetry representation; after a
    /// failed rendering nothing more is written, and the failure is kept.
    pub fn field<T: ToTelemetry + ?Sized>(&mut self, f: &mut TelemetryFormatter, value: &T)
        requires
            old(self).inv(old(f)@),
        ensures
            final(self).inv(final(f)@),
            final(self).failed() == (old(self).failed() || value.telemetry_fails()),
            final(self).start() == old(self).start(),
            final(self).name() == old(self).name(),
            final(self).fields() == old(self).fields().push(value.telemetry_repr()),
    {
        if self.result.is_err() {
            self.fields = Ghost(self.fields@.push(value.telemetry_repr()));
            return;
        }
        self.open_field(f);
        match value.fmt_telemetry(f) {
            Ok(()) => self.push_field(Ghost(value.telemetry_repr()), f),
            Err(e) => {
                self.result = Err(e);
                self.fields = Ghost(self.fields@.push(value.telemetry_repr()));
            },
        }
    }

    /// Renders one more field whose text is given verbatim.
    pub fn field_text(&mut self, f: &mut TelemetryFormatter, text: &str)
        requires
            old(self).inv(old(f)@),
        ensures
            final(self).inv(final(f)@),
            final(self).failed() == old(self).failed(),
            final(self).start() == old(self).start(),
            final(self).name() == old(self).name(),
            final(self).fields() == old(self).fields().push(text@),
    {
        if self.result.is_err() {
            self.fields = Ghost(self.fields@.push(text@));
            return;
        }
        self.open_field(f);
        f.write_str(text);
        self.push_field(Ghost(text@), f);
    }

    /// Records that `x` was written after the separator.
    fn push_field(&mut self, x: Ghost<Seq<char>>, f: &TelemetryFormatter)
        requires
            !old(self).failed(),
            old(self).text_inv(old(self).start() + old(self).name() + tuple_body(old(self).fields())),
            f@ == old(self).start() + old(self).name() + (if old(self).fields().len() == 0 {
                seq!['(']
            } else {
                seq!['('] + join(old(self).fields(), comma_sep()) + comma_sep()
            }) + x@,
        ensures
            final(self).inv(f@),
            !final(self).failed(),
            final(self).start() == old(self).start(),
            final(self).name() == old(self).name(),
            final(self).fields() == old(self).fields().push(x@),
    {
        proof {
            lemma_body_push(self.start@ + self.name@, seq!['('], self.fields@, x@);
            if self.fields@.len() == 0 {
                assert(f@ =~= self.start@ + self.name@ + seq!['('] + x@);
            } else {
                assert(f@ =~= self.start@ + self.name@ + seq!['('] + join(self.fields@, comma_sep())
                    + comma_sep() + x@);
            }
        }
        self.single = !self.has_fields;
        self.has_fields = true;
        self.fields = Ghost(self.fields@.push(x@));
        proof {
            assert(f@ =~= self.start@ + self.name@ + tuple_body(self.fields@));
        }
    }

    /// Closes the tuple; the whole text is `tuple_repr(name, fields)`. A failed
    /// field rendering is reported, and nothing is written then.
    pub fn finish(self, f: &mut TelemetryFormatter) -> (r: Result<(), FmtError>)
        requires
            self.inv(old(f)@),
        ensures
            r is Err <==> self.failed(),
            r is Ok ==> final(f)@ == self.start() + tuple_repr(self.name(), self.fields()),
    {
        if self.result.is_err() {
            return self.result;
        }
        if self.has_fields {
            if self.single && self.empty_name {
                f.write_char(',');
            }
            f.write_char(')');
            proof {
                if self.fields@.len() == 1 {
                    assert(join(self.fields@, comma_sep()) == self.fields@[0]);
                }
            }
        }
        proof {
            assert(f@ =~= self.start@ + tuple_repr(self.name@, self.fields@));
        }
        Ok(())
    }
}

/// Writes `Name { key: value, ... }` field by field, as `Formatter::debug_struct` does.
pub struct DebugStruct {
    result: Result<(), FmtError>,
    has_fields: bool,
    start: Ghost<Seq<char>>,
    name: Ghost<Seq<char>>,
    fields: Ghost<Seq<Seq<char>>>,
}

impl DebugStruct {
    /// The text that preceded the struct.
    pub closed spec fn start(&self) -> Seq<char> {
        self.start@
    }

    /// The struct's name.
    pub closed spec fn name(&self) -> Seq<char> {
        self.name@
    }

    /// The renderings `key: value` of the fields written so far.
    pub closed spec fn fields(&self) -> Seq<Seq<char>> {
        self.fields@
    }

    /// Whether a field's rendering has failed; nothing more is written then.
    pub closed spec fn failed(&self) -> bool {
        self.result is Err
    }

    /// The builder agrees with the text `out` of the formatter it writes into
    /// (or a rendering has failed).
    pub closed spec fn inv(&self, out: Seq<char>) -> bool {
        self.failed() || self.text_inv(out)
    }

    closed spec fn text_inv(&self, out: Seq<char>) -> bool {
        &&& self.has_fields == (self.fields@.len() > 0)
        &&& out == self.start@ + self.name@ + struct_body(self.fields@)
    }

    /// Writes the name and starts a struct with no fields.
    pub fn new(f: &mut TelemetryFormatter, name: &str) -> (t: DebugStruct)
        ensures
            t.inv(final(f)@),
            t.start() == old(f)@,
            t.name() == name@,
            t.fields() == Seq::<Seq<char>>::empty(),
            !t.failed(),
    {
        f.write_str(name);
        DebugStruct {
            result: Ok(()),
            has_fields: false,
            start: Ghost(old(f)@),
            name: Ghost(name@),
            fields: Ghost(Seq::empty()),
        }
    }

    /// Writes the separator and `key: ` that precede one more field's value.
    fn open_field(&mut self, f: &mut TelemetryFormatter, key: &str)
        requires
            old(self).text_inv(old(f)@),
        ensures
            final(f)@ == old(self).start() + old(self).name() + (if old(self).fields().len() == 0 {
                seq![' ', '{', ' ']
            } else {
                seq![' ', '{', ' '] + join(old(self).fields(), comma_sep()) + comma_sep()
            }) + key@ + seq![':', ' '],
            *final(self) == *old(self),
    {
        proof {
            reveal_strlit(", ");
            reveal_strlit(" { ");
            reveal_strlit(": ");
        }
        if self.has_fields {
            f.write_str(", ");
        } else {
            f.write_str(" { ");
        }
        f.write_str(key);
        f.write_str(": ");
    }

    /// Records that the field `key: x` was written after the separator.
    fn push_field(&mut self, key: Ghost<Seq<char>>, x: Ghost<Seq<char>>, f: &TelemetryFormatter)
        requires
            !old(self).failed(),
            old(self).text_inv(old(self).start() + old(self).name() + struct_body(old(self).fields())),
            f@ == old(self).start() + old(self).name() + (if old(self).fields().len() == 0 {
                seq![' ', '{', ' ']
            } else {
                seq![' ', '{', ' '] + join(old(self).fields(), comma_sep()) + comma_sep()
            }) + key@ + seq![':', ' '] + x@,
        ensures
            final(self).inv(f@),
            !final(self).failed(),
            final(self).start() == old(self).start(),
            final(self).name() == old(self).name(),
            final(self).fields() == old(self).fields().push(entry_repr(key@, x@)),
    {
        let ghost e = entry_repr(key@, x@);
        proof {
            lemma_body_push(self.start@ + self.name@, seq![' ', '{', ' '], self.fields@, e);
            if self.fields@.len() == 0 {
                assert(f@ =~= self.start@ + self.name@ + seq![' ', '{', ' '] + e);
            } else {
                assert(f@ =~= self.start@ + self.name@ + seq![' ', '{', ' '] + join(
                    self.fields@,
                    comma_sep(),
                ) + comma_sep() + e);
            }
        }
        self.has_fields = true;
        self.fields = Ghost(self.fields@.push(e));
        proof {
            assert(f@ =~= self.start@ + self.name@ + struct_body(self.fields@));
        }
    }

    /// Renders one more field `key: value` through the value's telemetry representation.
    pub fn field<T: ToTelemetry + ?Sized>(&mut self, f: &mut TelemetryFormatter, key: &str, value: &T)
        requires
            old(self).inv(old(f)@),
        ensures
            final(self).inv(final(f)@),
            final(self).failed() == (old(self).failed() || value.telemetry_fails()),
            final(self).start() == old(self).start(),
            final(self).name() == old(self).name(),
            final(self).fields() == old(self).fields().push(entry_repr(key@, value.telemetry_repr())),
    {
        if self.result.is_err() {
            self.fields = Ghost(self.fields@.push(entry_repr(key@, value.telemetry_repr())));
            return;
        }
        self.open_field(f, key);
        match value.fmt_telemetry(f) {
            Ok(()) => self.push_field(Ghost(key@), Ghost(value.telemetry_repr()), f),
            Err(e) => {
                self.result = Err(e);
                self.fields = Ghost(self.fields@.push(entry_repr(key@, value.telemetry_repr())));
            },
        }
    }

    /// Renders one more field `key: text` whose value text is given verbatim.
    pub fn field_text(&mut self, f: &mut TelemetryFormatter, key: &str, text: &str)
        requires
            old(self).inv(old(f)@),
        ensures
            final(self).inv(final(f)@),
            final(self).failed() == old(self).failed(),
            final(self).start() == old(self).start(),
            final(self).name() == old(self).name(),
            final(self).fields() == old(self).fields().push(entry_repr(key@, text@)),
    {
        if self.result.is_err() {
            self.fields = Ghost(self.fields@.push(entry_repr(key@, text@)));
            return;
        }
        self.open_field(f, key);
        f.write_str(text);
        self.push_field(Ghost(key@), Ghost(text@), f);
    }

    /// Closes the struct; the whole text is `struct_repr(name, fields)`. A
    /// failed field rendering is reported, and nothing is written then.
    pub fn finish(self, f: &mut TelemetryFormatter) -> (r: Result<(), FmtError>)
        requires
            self.inv(old(f)@),
        ensures
            r is Err <==> self.failed(),
            r is Ok ==> final(f)@ == self.start() + struct_repr(self.name(), self.fields()),
    {
        if self.result.is_err() {
            return self.result;
        }
        if self.has_fields {
            proof {
                reveal_strlit(" }");
            }
            f.write_str(" }");
        }
        proof {
            assert(f@ =~= self.start@ + struct_repr(self.name@, self.fields@));
        }
        Ok(())
    }
}

/// Writes a delimited collection item by item, as `Formatter::debug_list`,
/// `debug_set` and `debug_map` do: `[a, b]`, `{a, b}` or `{k: v}`.
pub struct DebugCollection {
    result: Result<(), FmtError>,
    has_items: bool,
    close: char,
    start: Ghost<Seq<char>>,
    open: Ghost<char>,
    items: Ghost<Seq<Seq<char>>>,
}

impl DebugCollection {
    /// The text that preceded the collection.
    pub closed spec fn start(&self) -> Seq<char> {
        self.start@
    }

    /// The opening delimiter.
    pub closed spec fn open_delim(&self) -> char {
        self.open@
    }

    /// The closing delimiter.
    pub closed spec fn close_delim(&self) -> char {
        self.close
    }

    /// The renderings of the items (or `key: value` entries) written so far.
    pub closed spec fn items(&self) -> Seq<Seq<char>> {
        self.items@
    }

    /// Whether an item's rendering has failed; nothing more is written then.
    pub closed spec fn failed(&self) -> bool {
        self.result is Err
    }

    /// The builder agrees with the text `out` of the formatter it writes into
    /// (or a rendering has failed).
    pub closed spec fn inv(&self, out: Seq<char>) -> bool {
        self.failed() || self.text_inv(out)
    }

    closed spec fn text_inv(&self, out: Seq<char>) -> bool {
        &&& self.has_items == (self.items@.len() > 0)
        &&& out == self.start@ + seq![self.open@] + join(self.items@, comma_sep())
    }

    fn with_delims(f: &mut TelemetryFormatter, open: char, close: char) -> (t: DebugCollection)
        ensures
            t.inv(final(f)@),
            t.start() == old(f)@,
            t.open_delim() == open,
            t.close_delim() == close,
            t.items() == Seq::<Seq<char>>::empty(),
            !t.failed(),
    {
        f.write_char(open);
        let t = DebugCollection {
            result: Ok(()),
            has_items: false,
            close,
            start: Ghost(old(f)@),
            open: Ghost(open),
            items: Ghost(Seq::empty()),
        };
        proof {
            assert(f@ =~= t.start@ + seq![open] + join(t.items@, comma_sep()));
        }
        t
    }

    /// Starts a list, `[...]`.
    pub fn list(f: &mut TelemetryFormatter) -> (t: DebugCollection)
        ensures
            t.inv(final(f)@),
            t.start() == old(f)@,
            t.open_delim() == '[',
            t.close_delim() == ']',
            t.items() == Seq::<Seq<char>>::empty(),
            !t.failed(),
    {
        Self::with_delims(f, '[', ']')
    }

    /// Starts a set, `{a, b, ...}`.
    pub fn set(f: &mut TelemetryFormatter) -> (t: DebugCollection)
        ensures
            t.inv(final(f)@),
            t.start() == old(f)@,
            t.open_delim() == '{',
            t.close_delim() == '}',
            t.items() == Seq::<Seq<char>>::empty(),
            !t.failed(),
    {
        Self::with_delims(f, '{', '}')
    }

    /// Starts a map, `{k: v, ...}` (entries are written with `key_value`).
    pub fn map(f: &mut TelemetryFormatter) -> (t: DebugCollection)
        ensures
            t.inv(final(f)@),
            t.start() == old(f)@,
            t.open_delim() == '{',
            t.close_delim() == '}',
            t.items() == Seq::<Seq<char>>::empty(),
            !t.failed(),
    {
        Self::with_delims(f, '{', '}')
    }

    /// Writes the separator that precedes one more item.
    fn open_item(&mut self, f: &mut TelemetryFormatter)
        requires
            old(self).text_inv(old(f)@),
        ensures
            final(f)@ == old(self).start() + seq![old(self).open_delim()] + (if old(self).items().len() == 0 {
                Seq::empty()
            } else {
                join(old(self).items(), comma_sep()) + comma_sep()
            }),
            *final(self) == *old(self),
    {
        if self.has_items {
            proof {
                reveal_strlit(", ");
            }
            f.write_str(", ");
        }
        proof {
            if !self.has_items {
                assert(old(f)@ =~= self.start@ + seq![self.open@] + Seq::<char>::empty());
            }
        }
    }

    /// Records that `x` was written after the separator.
    fn push_item(&mut self, x: Ghost<Seq<char>>, f: &TelemetryFormatter)
        requires
            !old(self).failed(),
            old(self).text_inv(old(self).start() + seq![old(self).open_delim()] + join(old(self).items(), comma_sep())),
            f@ == old(self).start() + seq![old(self).open_delim()] + (if old(self).items().len() == 0 {
                Seq::empty()
            } else {
                join(old(self).items(), comma_sep()) + comma_sep()
            }) + x@,
        ensures
            final(self).inv(f@),
            !final(self).failed(),
            final(self).start() == old(self).start(),
            final(self).open_delim() == old(self).open_delim(),
            final(self).close_delim() == old(self).close_delim(),
            final(self).items() == old(self).items().push(x@),
    {
        proof {
            lemma_join_push(self.items@, comma_sep(), x@);
            if self.items@.len() == 0 {
                assert(f@ =~= self.start@ + seq![self.open@] + join(self.items@.push(x@), comma_sep()));
            } else {
                assert(f@ =~= self.start@ + seq![self.open@] + join(self.items@.push(x@), comma_sep()));
            }
        }
        self.has_items = true;
        self.items = Ghost(self.items@.push(x@));
    }

    /// Renders one more item through its telemetry representation.
    pub fn entry<T: ToTelemetry + ?Sized>(&mut self, f: &mut TelemetryFormatter, value: &T)
        requires
            old(self).inv(old(f)@),
        ensures
            final(self).inv(final(f)@),
            final(self).start() == old(self).start(),
            final(self).open_delim() == old(self).open_delim(),
            final(self).close_delim() == old(self).close_delim(),
            final(self).items() == old(self).items().push(value.telemetry_repr()),
            final(self).failed() == (old(self).failed() || value.telemetry_fails()),
    {
        if self.result.is_err() {
            self.items = Ghost(self.items@.push(value.telemetry_repr()));
            return;
        }
        self.open_item(f);
        match value.fmt_telemetry(f) {
            Ok(()) => self.push_item(Ghost(value.telemetry_repr()), f),
            Err(e) => {
                self.result = Err(e);
                self.items = Ghost(self.items@.push(value.telemetry_repr()));
            },
        }
    }

    /// Renders one more entry `key: value`, both through their telemetry representations.
    pub fn key_value<K: ToTelemetry + ?Sized, V: ToTelemetry + ?Sized>(
        &mut self,
        f: &mut TelemetryFormatter,
        key: &K,
        value: &V,
    )
        requires
            old(self).inv(old(f)@),
        ensures
            final(self).inv(final(f)@),
            final(self).start() == old(self).start(),
            final(self).open_delim() == old(self).open_delim(),
            final(self).close_delim() == old(self).close_delim(),
            final(self).items() == old(self).items().push(
                entry_repr(key.telemetry_repr(), value.telemetry_repr()),
            ),
            final(self).failed() == (old(self).failed() || key.telemetry_fails()
                || value.telemetry_fails()),
    {
        let ghost e = entry_repr(key.telemetry_repr(), value.telemetry_repr());
        if self.result.is_err() {
            self.items = Ghost(self.items@.push(e));
            return;
        }
        self.open_item(f);
        match key.fmt_telemetry(f) {
            Ok(()) => {},
            Err(err) => {
                self.result = Err(err);
                self.items = Ghost(self.items@.push(e));
                return;
            },
        }
        proof {
            reveal_strlit(": ");
        }
        f.write_str(": ");
        match value.fmt_telemetry(f) {
            Ok(()) => {},
            Err(err) => {
                self.result = Err(err);
                self.items = Ghost(self.items@.push(e));
                return;
            },
        }
        proof {
            assert(f@ =~= self.start@ + seq![self.open@] + (if self.items@.len() == 0 {
                Seq::empty()
            } else {
                join(self.items@, comma_sep()) + comma_sep()
            }) + entry_repr(key.telemetry_repr(), value.telemetry_repr()));
        }
        self.push_item(Ghost(entry_repr(key.telemetry_repr(), value.telemetry_repr())), f);
    }

    /// Closes the collection; the whole text is `delimited_repr(open, items, close)`.
    /// A failed item rendering is reported, and nothing is written then.
    pub fn finish(self, f: &mut TelemetryFormatter) -> (r: Result<(), FmtError>)
        requires
            self.inv(old(f)@),
        ensures
            r is Err <==> self.failed(),
            r is Ok ==> final(f)@ == self.start() + delimited_repr(
                self.open_delim(),
                self.items(),
                self.close_delim(),
            ),
    {
        if self.result.is_err() {
            return self.result;
        }
        f.write_char(self.close);
        proof {
            assert(f@ =~= self.start@ + delimited_repr(self.open@, self.items@, self.close));
        }
        Ok(())
    }
}

} // verus!
