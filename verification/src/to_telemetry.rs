use vstd::prelude::*;
use vstd::pervasive::arbitrary;

use crate::builders::{DebugCollection, DebugTuple};
use crate::decimal::{digits, int_repr, write_signed, write_unsigned};
use crate::formatter::{comma_sep, join, list_repr, tuple_repr, TelemetryFormatter};

use core::fmt::Error as FmtError;

verus! {

/// Formats a value only through an explicitly approved telemetry representation.
///
/// Implemented here for `bool`, `char`, the primitive integers, references,
/// `Box`, `Option`, `Result`, slices, arrays, `Vec`, `BTreeMap` and `BTreeSet`
/// (whose keys must be `Ord`, as every key of a non-empty one is), and for the
/// address types of `net` (built from `octets()`, `segments()` and the ports of
/// the standard library's addresses), each with its text proved. The `NonZero*`
/// integers have no impl, as Verus cannot declare `NonZero` (its parameter's
/// bound is an unstable trait): render `n.get()` in their place.
pub trait ToTelemetry {
    /// The representation that may leave the process boundary.
    ///
    /// Every impl in this crate defines it, and its `fmt_telemetry` is proved
    /// to write exactly it. An impl written in ordinary Rust, outside Verus (a
    /// derived impl, or one written by hand), cannot define it and keeps this
    /// default: an unknown text, one per value, of which the contracts know
    /// nothing; that the impl writes it is the impl's own promise. A derived
    /// impl writes its text through `derive::write_derived`, whose contract
    /// gives that text from the plan of `derive::expand_derive` and the texts
    /// of the fields.
    closed spec fn telemetry_repr(&self) -> Seq<char> {
        arbitrary::<spec_fn(&Self) -> Seq<char>>()(self)
    }

    /// Whether rendering the value fails. No impl in this crate fails on its
    /// own; a composite value fails where a part of it does. Of an impl written
    /// outside Verus, which keeps this default, the contracts know nothing.
    closed spec fn telemetry_fails(&self) -> bool {
        arbitrary::<spec_fn(&Self) -> bool>()(self)
    }

    /// Writes `telemetry_repr` at the end of `f`, and nothing else; or reports
    /// that rendering failed (and then what was written is left open).
    fn fmt_telemetry(&self, f: &mut TelemetryFormatter) -> (r: Result<(), FmtError>)
        ensures
            r is Err <==> self.telemetry_fails(),
            r is Ok ==> final(f)@ == old(f)@ + self.telemetry_repr(),
    ;
}

/// Wraps a value so telemetry-safe formatting can be used where `Display` is expected.
pub struct TelemetryDisplay<'a, T: ?Sized>(&'a T);

impl<'a, T: ToTelemetry + ?Sized> TelemetryDisplay<'a, T> {
    /// The wrapped value.
    pub closed spec fn value(&self) -> &'a T {
        self.0
    }

    /// Creates a `Display` adapter for telemetry backends that accept `%value`.
    pub fn new(value: &'a T) -> (d: Self)
        ensures
            d.value() == value,
    {
        TelemetryDisplay(value)
    }

    /// The wrapped value.
    pub fn get(&self) -> (v: &'a T)
        ensures
            v == self.value(),
    {
        self.0
    }

    /// Writes the wrapped value's telemetry representation; a failed rendering
    /// is passed back as it came.
    pub fn fmt(&self, f: &mut TelemetryFormatter) -> (r: Result<(), FmtError>)
        ensures
            r is Err <==> self.value().telemetry_fails(),
            r is Ok ==> final(f)@ == old(f)@ + self.value().telemetry_repr(),
    {
        self.0.fmt_telemetry(f)
    }

    /// The text that `Display` shows: the telemetry representation (of a value
    /// whose rendering does not fail).
    pub fn to_string(&self) -> (s: String)
        requires
            !self.value().telemetry_fails(),
        ensures
            s@ == self.value().telemetry_repr(),
    {
        let mut f = TelemetryFormatter::new();
        let _ = self.fmt(&mut f);
        f.into_string()
    }
}

/// The telemetry representation of `value` as a string, or the error of its
/// failed rendering.
pub fn render_text<T: ToTelemetry + ?Sized>(value: &T) -> (r: Result<String, FmtError>)
    ensures
        r is Err <==> value.telemetry_fails(),
        r matches Ok(s) ==> s@ == value.telemetry_repr(),
{
    let mut f = TelemetryFormatter::new();
    match value.fmt_telemetry(&mut f) {
        Ok(()) => Ok(f.into_string()),
        Err(e) => Err(e),
    }
}

/// Exposes a telemetry-safe value as `Display`.
pub fn telemetry<T: ToTelemetry + ?Sized>(value: &T) -> (d: TelemetryDisplay<'_, T>)
    ensures
        d.value() == value,
{
    TelemetryDisplay::new(value)
}

/// Wraps a value so builders can render it where a `Debug` value is expected,
/// without exposing the wrapped type's own `Debug`.
pub struct TelemetryDebug<'a, T: ?Sized>(&'a T);

impl<'a, T: ToTelemetry + ?Sized> TelemetryDebug<'a, T> {
    /// The wrapped value.
    pub closed spec fn value(&self) -> &'a T {
        self.0
    }

    /// Creates a `Debug` adapter for APIs that only accept `?value`-style inputs.
    pub fn new(value: &'a T) -> (d: Self)
        ensures
            d.value() == value,
    {
        TelemetryDebug(value)
    }

    /// The wrapped value.
    pub fn get(&self) -> (v: &'a T)
        ensures
            v == self.value(),
    {
        self.0
    }

    /// Writes the wrapped value's telemetry representation; a failed rendering
    /// is passed back as it came.
    pub fn fmt(&self, f: &mut TelemetryFormatter) -> (r: Result<(), FmtError>)
        ensures
            r is Err <==> self.value().telemetry_fails(),
            r is Ok ==> final(f)@ == old(f)@ + self.value().telemetry_repr(),
    {
        self.0.fmt_telemetry(f)
    }

    /// The text that `Debug` shows: the telemetry representation (of a value
    /// whose rendering does not fail).
    pub fn to_string(&self) -> (s: String)
        requires
            !self.value().telemetry_fails(),
        ensures
            s@ == self.value().telemetry_repr(),
    {
        let mut f = TelemetryFormatter::new();
        let _ = self.fmt(&mut f);
        f.into_string()
    }
}

/// Exposes a telemetry-safe value as `Debug`.
pub fn telemetry_debug<T: ToTelemetry + ?Sized>(value: &T) -> (d: TelemetryDebug<'_, T>)
    ensures
        d.value() == value,
{
    TelemetryDebug::new(value)
}

impl<'a, T: ToTelemetry + ?Sized> ToTelemetry for TelemetryDebug<'a, T> {
    open spec fn telemetry_repr(&self) -> Seq<char> {
        self.value().telemetry_repr()
    }

    open spec fn telemetry_fails(&self) -> bool {
        self.value().telemetry_fails()
    }

    fn fmt_telemetry(&self, f: &mut TelemetryFormatter) -> Result<(), FmtError> {
        self.fmt(f)
    }
}

impl ToTelemetry for bool {
    open spec fn telemetry_repr(&self) -> Seq<char> {
        if *self {
            seq!['t', 'r', 'u', 'e']
        } else {
            seq!['f', 'a', 'l', 's', 'e']
        }
    }

    open spec fn telemetry_fails(&self) -> bool {
        false
    }

    fn fmt_telemetry(&self, f: &mut TelemetryFormatter) -> Result<(), FmtError> {
        proof {
            reveal_strlit("true");
            reveal_strlit("false");
        }
        if *self {
            f.write_str("true");
        } else {
            f.write_str("false");
        }
        Ok(())
    }
}

impl<T: ToTelemetry> ToTelemetry for Option<T> {
    open spec fn telemetry_repr(&self) -> Seq<char> {
        match self {
            Some(v) => tuple_repr(seq!['S', 'o', 'm', 'e'], seq![v.telemetry_repr()]),
            None => seq!['N', 'o', 'n', 'e'],
        }
    }

    open spec fn telemetry_fails(&self) -> bool {
        match self {
            Some(v) => v.telemetry_fails(),
            None => false,
        }
    }

    fn fmt_telemetry(&self, f: &mut TelemetryFormatter) -> Result<(), FmtError> {
        proof {
            reveal_strlit("Some");
            reveal_strlit("None");
        }
        match self {
            Some(v) => {
                let mut t = DebugTuple::new(f, "Some");
                t.field(f, v);
                proof {
                    assert(seq![v.telemetry_repr()] =~= Seq::<Seq<char>>::empty().push(v.telemetry_repr()));
                }
                t.finish(f)
            },
            None => {
                f.write_str("None");
                Ok(())
            },
        }
    }
}

impl ToTelemetry for u8 {
    open spec fn telemetry_repr(&self) -> Seq<char> {
        int_repr(*self as int)
    }

    open spec fn telemetry_fails(&self) -> bool {
        false
    }

    fn fmt_telemetry(&self, f: &mut TelemetryFormatter) -> Result<(), FmtError> {
        write_unsigned(f, *self as u128);
        Ok(())
    }
}

impl ToTelemetry for u16 {
    open spec fn telemetry_repr(&self) -> Seq<char> {
        int_repr(*self as int)
    }

    open spec fn telemetry_fails(&self) -> bool {
        false
    }

    fn fmt_telemetry(&self, f: &mut TelemetryFormatter) -> Result<(), FmtError> {
        write_unsigned(f, *self as u128);
        Ok(())
    }
}

impl ToTelemetry for u32 {
    open spec fn telemetry_repr(&self) -> Seq<char> {
        int_repr(*self as int)
    }

    open spec fn telemetry_fails(&self) -> bool {
        false
    }

    fn fmt_telemetry(&self, f: &mut TelemetryFormatter) -> Result<(), FmtError> {
        write_unsigned(f, *self as u128);
        Ok(())
    }
}

impl ToTelemetry for u64 {
    open spec fn telemetry_repr(&self) -> Seq<char> {
        int_repr(*self as int)
    }

    open spec fn telemetry_fails(&self) -> bool {
        false
    }

    fn fmt_telemetry(&self, f: &mut TelemetryFormatter) -> Result<(), FmtError> {
        write_unsigned(f, *self as u128);
        Ok(())
    }
}

impl ToTelemetry for u128 {
    open spec fn telemetry_repr(&self) -> Seq<char> {
        int_repr(*self as int)
    }

    open spec fn telemetry_fails(&self) -> bool {
        false
    }

    fn fmt_telemetry(&self, f: &mut TelemetryFormatter) -> Result<(), FmtError> {
        write_unsigned(f, *self as u128);
        Ok(())
    }
}

impl ToTelemetry for usize {
    open spec fn telemetry_repr(&self) -> Seq<char> {
        int_repr(*self as int)
    }

    open spec fn telemetry_fails(&self) -> bool {
        false
    }

    fn fmt_telemetry(&self, f: &mut TelemetryFormatter) -> Result<(), FmtError> {
        write_unsigned(f, *self as u128);
        Ok(())
    }
}

impl ToTelemetry for i8 {
    open spec fn telemetry_repr(&self) -> Seq<char> {
        int_repr(*self as int)
    }

    open spec fn telemetry_fails(&self) -> bool {
        false
    }

    fn fmt_telemetry(&self, f: &mut TelemetryFormatter) -> Result<(), FmtError> {
        write_signed(f, *self as i128);
        Ok(())
    }
}

impl ToTelemetry for i16 {
    open spec fn telemetry_repr(&self) -> Seq<char> {
        int_repr(*self as int)
    }

    open spec fn telemetry_fails(&self) -> bool {
        false
    }

    fn fmt_telemetry(&self, f: &mut TelemetryFormatter) -> Result<(), FmtError> {
        write_signed(f, *self as i128);
        Ok(())
    }
}

impl ToTelemetry for i32 {
    open spec fn telemetry_repr(&self) -> Seq<char> {
        int_repr(*self as int)
    }

    open spec fn telemetry_fails(&self) -> bool {
        false
    }

    fn fmt_telemetry(&self, f: &mut TelemetryFormatter) -> Result<(), FmtError> {
        write_signed(f, *self as i128);
        Ok(())
    }
}

impl ToTelemetry for i64 {
    open spec fn telemetry_repr(&self) -> Seq<char> {
        int_repr(*self as int)
    }

    open spec fn telemetry_fails(&self) -> bool {
        false
    }

    fn fmt_telemetry(&self, f: &mut TelemetryFormatter) -> Result<(), FmtError> {
        write_signed(f, *self as i128);
        Ok(())
    }
}

impl ToTelemetry for i128 {
    open spec fn telemetry_repr(&self) -> Seq<char> {
        int_repr(*self as int)
    }

    open spec fn telemetry_fails(&self) -> bool {
        false
    }

    fn fmt_telemetry(&self, f: &mut TelemetryFormatter) -> Result<(), FmtError> {
        write_signed(f, *self as i128);
        Ok(())
    }
}

impl ToTelemetry for isize {
    open spec fn telemetry_repr(&self) -> Seq<char> {
        int_repr(*self as int)
    }

    open spec fn telemetry_fails(&self) -> bool {
        false
    }

    fn fmt_telemetry(&self, f: &mut TelemetryFormatter) -> Result<(), FmtError> {
        write_signed(f, *self as i128);
        Ok(())
    }
}

impl ToTelemetry for char {
    open spec fn telemetry_repr(&self) -> Seq<char> {
        seq![*self]
    }

    open spec fn telemetry_fails(&self) -> bool {
        false
    }

    fn fmt_telemetry(&self, f: &mut TelemetryFormatter) -> Result<(), FmtError> {
        f.write_char(*self);
        Ok(())
    }
}

impl<T: ToTelemetry + ?Sized> ToTelemetry for &T {
    open spec fn telemetry_repr(&self) -> Seq<char> {
        (**self).telemetry_repr()
    }

    open spec fn telemetry_fails(&self) -> bool {
        (**self).telemetry_fails()
    }

    fn fmt_telemetry(&self, f: &mut TelemetryFormatter) -> Result<(), FmtError> {
        (**self).fmt_telemetry(f)
    }
}

impl<T: ToTelemetry + ?Sized> ToTelemetry for Box<T> {
    open spec fn telemetry_repr(&self) -> Seq<char> {
        (**self).telemetry_repr()
    }

    open spec fn telemetry_fails(&self) -> bool {
        (**self).telemetry_fails()
    }

    fn fmt_telemetry(&self, f: &mut TelemetryFormatter) -> Result<(), FmtError> {
        (**self).fmt_telemetry(f)
    }
}

impl<T: ToTelemetry, E: ToTelemetry> ToTelemetry for Result<T, E> {
    open spec fn telemetry_repr(&self) -> Seq<char> {
        match self {
            Ok(v) => tuple_repr(seq!['O', 'k'], seq![v.telemetry_repr()]),
            Err(e) => tuple_repr(seq!['E', 'r', 'r'], seq![e.telemetry_repr()]),
        }
    }

    open spec fn telemetry_fails(&self) -> bool {
        match self {
            Ok(v) => v.telemetry_fails(),
            Err(e) => e.telemetry_fails(),
        }
    }

    fn fmt_telemetry(&self, f: &mut TelemetryFormatter) -> Result<(), FmtError> {
        proof {
            reveal_strlit("Ok");
            reveal_strlit("Err");
        }
        match self {
            Ok(v) => {
                let mut t = DebugTuple::new(f, "Ok");
                t.field(f, v);
                proof {
                    assert(seq![v.telemetry_repr()] =~= Seq::<Seq<char>>::empty().push(v.telemetry_repr()));
                }
                t.finish(f)
            },
            Err(e) => {
                let mut t = DebugTuple::new(f, "Err");
                t.field(f, e);
                proof {
                    assert(seq![e.telemetry_repr()] =~= Seq::<Seq<char>>::empty().push(e.telemetry_repr()));
                }
                t.finish(f)
            },
        }
    }
}

/// The renderings of each item of `items`, in order.
pub open spec fn item_reprs<T: ToTelemetry>(items: Seq<T>) -> Seq<Seq<char>> {
    items.map_values(|x: T| x.telemetry_repr())
}

/// Whether the rendering of some item of `items` fails.
pub open spec fn some_item_fails<T: ToTelemetry>(items: Seq<T>) -> bool {
    exists|k: int| 0 <= k < items.len() && (#[trigger] items[k]).telemetry_fails()
}

/// Some item of the first `i + 1` fails exactly when one of the first `i` does or the next one does.
pub proof fn lemma_some_item_fails_push<T: ToTelemetry>(items: Seq<T>, i: int)
    requires
        0 <= i < items.len(),
    ensures
        some_item_fails(items.take(i + 1)) == (some_item_fails(items.take(i))
            || items[i].telemetry_fails()),
{
    let a = items.take(i + 1);
    let b = items.take(i);
    if some_item_fails(a) {
        let k = choose|k: int| 0 <= k < a.len() && (#[trigger] a[k]).telemetry_fails();
        if k < i {
            assert(b[k] == a[k]);
        }
    }
    if some_item_fails(b) {
        let k = choose|k: int| 0 <= k < b.len() && (#[trigger] b[k]).telemetry_fails();
        assert(a[k] == b[k]);
    }
    if items[i].telemetry_fails() {
        assert(a[i] == items[i]);
    }
}

impl<T: ToTelemetry> ToTelemetry for [T] {
    open spec fn telemetry_repr(&self) -> Seq<char> {
        list_repr(item_reprs(self@))
    }

    open spec fn telemetry_fails(&self) -> bool {
        some_item_fails(self@)
    }

    fn fmt_telemetry(&self, f: &mut TelemetryFormatter) -> Result<(), FmtError> {
        let mut list = DebugCollection::list(f);
        let n = self.len();
        for i in 0..n
            invariant
                n == self@.len(),
                list.inv(f@),
                list.start() == old(f)@,
                list.open_delim() == '[',
                list.close_delim() == ']',
                list.items() == item_reprs(self@.take(i as int)),
                list.failed() == some_item_fails(self@.take(i as int)),
        {
            list.entry(f, &self[i]);
            proof {
                assert(item_reprs(self@.take(i + 1)) =~= item_reprs(self@.take(i as int)).push(
                    self@[i as int].telemetry_repr(),
                ));
                lemma_some_item_fails_push(self@, i as int);
            }
        }
        proof {
            assert(self@.take(n as int) =~= self@);
        }
        list.finish(f)
    }
}

impl<T: ToTelemetry> ToTelemetry for Vec<T> {
    open spec fn telemetry_repr(&self) -> Seq<char> {
        list_repr(item_reprs(self@))
    }

    open spec fn telemetry_fails(&self) -> bool {
        some_item_fails(self@)
    }

    fn fmt_telemetry(&self, f: &mut TelemetryFormatter) -> Result<(), FmtError> {
        self.as_slice().fmt_telemetry(f)
    }
}

impl<T: ToTelemetry, const N: usize> ToTelemetry for [T; N] {
    open spec fn telemetry_repr(&self) -> Seq<char> {
        list_repr(item_reprs(self@))
    }

    open spec fn telemetry_fails(&self) -> bool {
        some_item_fails(self@)
    }

    fn fmt_telemetry(&self, f: &mut TelemetryFormatter) -> Result<(), FmtError> {
        self.as_slice().fmt_telemetry(f)
    }
}

/// Law: the `Display` and `Debug` adapters of the same value write the same text,
/// the value's telemetry representation, and fail exactly when its rendering
/// fails; nothing else of the value is shown.
pub proof fn law_adapters_write_the_representation<'a, T: ToTelemetry + ?Sized>(
    d: TelemetryDisplay<'a, T>,
    g: TelemetryDebug<'a, T>,
)
    requires
        d.value() == g.value(),
    ensures
        g.telemetry_repr() == d.value().telemetry_repr(),
        g.telemetry_fails() == d.value().telemetry_fails(),
{
}

/// Law: references and boxes are transparent: they render as what they point to.
pub proof fn law_indirection_is_transparent<T: ToTelemetry>(v: T, b: Box<T>)
    requires
        *b == v,
    ensures
        (&v).telemetry_repr() == v.telemetry_repr(),
        b.telemetry_repr() == v.telemetry_repr(),
        (&v).telemetry_fails() == v.telemetry_fails(),
        b.telemetry_fails() == v.telemetry_fails(),
{
}

/// Law: a vector, a slice and an array with the same items render alike, as
/// `[a, b, ...]` with each item rendered through its own representation.
pub proof fn law_sequences_render_alike<T: ToTelemetry, const N: usize>(v: Vec<T>, s: &[T], a: [T; N])
    requires
        v@ == s@,
        a@ == s@,
    ensures
        v.telemetry_repr() == s.telemetry_repr(),
        a.telemetry_repr() == s.telemetry_repr(),
        s.telemetry_repr() == seq!['['] + join(item_reprs(s@), comma_sep()) + seq![']'],
{
}

/// Law: `Some(x)` renders as `Some(` + x + `)`, `None` as `None`; `Ok(x)` as
/// `Ok(` + x + `)` and `Err(e)` as `Err(` + e + `)`.
pub proof fn law_option_and_result_wrap_their_value<T: ToTelemetry, E: ToTelemetry>(x: T, e: E)
    ensures
        Some(x).telemetry_repr() == seq!['S', 'o', 'm', 'e', '('] + x.telemetry_repr() + seq![')'],
        None::<T>.telemetry_repr() == seq!['N', 'o', 'n', 'e'],
        Ok::<T, E>(x).telemetry_repr() == seq!['O', 'k', '('] + x.telemetry_repr() + seq![')'],
        Err::<T, E>(e).telemetry_repr() == seq!['E', 'r', 'r', '('] + e.telemetry_repr() + seq![')'],
{
    let one = seq![x.telemetry_repr()];
    assert(join(one, comma_sep()) == x.telemetry_repr());
    assert(seq!['S', 'o', 'm', 'e'] + seq!['('] + x.telemetry_repr() + seq![')'] =~= seq![
        'S',
        'o',
        'm',
        'e',
        '(',
    ] + x.telemetry_repr() + seq![')']);
    assert(seq!['O', 'k'] + seq!['('] + x.telemetry_repr() + seq![')'] =~= seq!['O', 'k', '(']
        + x.telemetry_repr() + seq![')']);
    let other = seq![e.telemetry_repr()];
    assert(join(other, comma_sep()) == e.telemetry_repr());
    assert(seq!['E', 'r', 'r'] + seq!['('] + e.telemetry_repr() + seq![')'] =~= seq!['E', 'r', 'r', '(']
        + e.telemetry_repr() + seq![')']);
}

/// Law: integers render as their decimal notation, with `-` before negative ones.
pub proof fn law_integers_render_in_decimal(x: i64, y: u64)
    ensures
        x.telemetry_repr() == int_repr(x as int),
        y.telemetry_repr() == digits(y as nat),
{
}

/// Law: every integer, of every width, renders as `Display` writes it: the
/// decimal digits of its magnitude (`digits`, whose value is the number, see
/// `decimal::law_digits_denote_the_number`), after a `-` when it is negative;
/// and rendering it never fails.
pub proof fn law_every_integer_renders_in_decimal(x_i8: i8, x_i16: i16, x_i32: i32, x_i64: i64, x_i128: i128, x_isize: isize, x_u8: u8, x_u16: u16, x_u32: u32, x_u64: u64, x_u128: u128, x_usize: usize)
    ensures
        x_i8.telemetry_repr() == (if x_i8 < 0 { seq!['-'] + digits((-x_i8) as nat) } else { digits(x_i8 as nat) }),
        x_i16.telemetry_repr() == (if x_i16 < 0 { seq!['-'] + digits((-x_i16) as nat) } else { digits(x_i16 as nat) }),
        x_i32.telemetry_repr() == (if x_i32 < 0 { seq!['-'] + digits((-x_i32) as nat) } else { digits(x_i32 as nat) }),
        x_i64.telemetry_repr() == (if x_i64 < 0 { seq!['-'] + digits((-x_i64) as nat) } else { digits(x_i64 as nat) }),
        x_i128.telemetry_repr() == (if x_i128 < 0 { seq!['-'] + digits((-x_i128) as nat) } else { digits(x_i128 as nat) }),
        x_isize.telemetry_repr() == (if x_isize < 0 { seq!['-'] + digits((-x_isize) as nat) } else { digits(x_isize as nat) }),
        x_u8.telemetry_repr() == digits(x_u8 as nat),
        x_u16.telemetry_repr() == digits(x_u16 as nat),
        x_u32.telemetry_repr() == digits(x_u32 as nat),
        x_u64.telemetry_repr() == digits(x_u64 as nat),
        x_u128.telemetry_repr() == digits(x_u128 as nat),
        x_usize.telemetry_repr() == digits(x_usize as nat),
        !x_i8.telemetry_fails(),
        !x_i16.telemetry_fails(),
        !x_i32.telemetry_fails(),
        !x_i64.telemetry_fails(),
        !x_i128.telemetry_fails(),
        !x_isize.telemetry_fails(),
        !x_u8.telemetry_fails(),
        !x_u16.telemetry_fails(),
        !x_u32.telemetry_fails(),
        !x_u64.telemetry_fails(),
        !x_u128.telemetry_fails(),
        !x_usize.telemetry_fails(),
{
}

/// Law: `true` and `false` render as those words, and a `char` as itself;
/// neither fails.
pub proof fn law_bool_and_char_render_as_display(b: bool, c: char)
    ensures
        b.telemetry_repr() == (if b { seq!['t', 'r', 'u', 'e'] } else { seq!['f', 'a', 'l', 's', 'e'] }),
        c.telemetry_repr() == seq![c],
        !b.telemetry_fails(),
        !c.telemetry_fails(),
{
}

} // verus!
