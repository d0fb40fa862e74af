use vstd::prelude::*;
use vstd::string::{StrSliceExecFns, StringExecFns};

use crate::formatter::string_push;

verus! {

/// The pieces of a format string: `Some(c)` for a character written as is,
/// `None` for a `{}` placeholder. `{{` and `}}` stand for `{` and `}`; any
/// other brace makes the format string malformed (`None`).
pub open spec fn fmt_pieces(s: Seq<char>) -> Option<Seq<Option<char>>>
    decreases s.len(),
{
    if s.len() == 0 {
        Some(Seq::empty())
    } else if s[0] == '{' {
        if s.len() >= 2 && s[1] == '{' {
            prepend_piece(Some('{'), fmt_pieces(s.skip(2)))
        } else if s.len() >= 2 && s[1] == '}' {
            prepend_piece(None, fmt_pieces(s.skip(2)))
        } else {
            None
        }
    } else if s[0] == '}' {
        if s.len() >= 2 && s[1] == '}' {
            prepend_piece(Some('}'), fmt_pieces(s.skip(2)))
        } else {
            None
        }
    } else {
        prepend_piece(Some(s[0]), fmt_pieces(s.skip(1)))
    }
}

/// `p` followed by the pieces `rest`, if `rest` is well formed.
pub open spec fn prepend_piece(p: Option<char>, rest: Option<Seq<Option<char>>>) -> Option<
    Seq<Option<char>>,
> {
    match rest {
        Some(r) => Some(seq![p] + r),
        None => None,
    }
}

/// `done` followed by the pieces `rest`, if `rest` is well formed.
pub open spec fn append_pieces(done: Seq<Option<char>>, rest: Option<Seq<Option<char>>>) -> Option<
    Seq<Option<char>>,
> {
    match rest {
        Some(r) => Some(done + r),
        None => None,
    }
}

/// The pieces that write the characters of `t` as they are.
pub open spec fn as_text(t: Seq<char>) -> Seq<Option<char>> {
    t.map_values(|c: char| Some(c))
}

/// The number of placeholders among `pieces`.
pub open spec fn hole_count(pieces: Seq<Option<char>>) -> nat
    decreases pieces.len(),
{
    if pieces.len() == 0 {
        0
    } else {
        hole_count(pieces.drop_last()) + if pieces.last() is None {
            1nat
        } else {
            0nat
        }
    }
}

/// The text that `pieces` write when each placeholder shows `shown`.
pub open spec fn render_pieces(pieces: Seq<Option<char>>, shown: Seq<char>) -> Seq<char>
    decreases pieces.len(),
{
    if pieces.len() == 0 {
        Seq::empty()
    } else {
        render_pieces(pieces.drop_last(), shown) + match pieces.last() {
            Some(c) => seq![c],
            None => shown,
        }
    }
}

/// What a format string from a field attribute amounts to.
pub enum FormatClass {
    /// Malformed braces.
    Invalid,
    /// No placeholder: a fixed text (braces unescaped).
    Text(String),
    /// Exactly one placeholder, with the text before and after it.
    OneHole(String, String),
    /// Two or more placeholders.
    ManyHoles,
}

/// The characters of `s`, in order.
pub fn str_chars(s: &str) -> (v: Vec<char>)
    ensures
        v@ == s@,
{
    let n = s.unicode_len();
    let mut v: Vec<char> = Vec::new();
    for i in 0..n
        invariant
            n == s@.len(),
            v@ == s@.take(i as int),
    {
        v.push(s.get_char(i));
        proof {
            assert(s@.take(i + 1) =~= s@.take(i as int).push(s@[i as int]));
        }
    }
    proof {
        assert(s@.take(n as int) =~= s@);
    }
    v
}

proof fn lemma_as_text_push(t: Seq<char>, c: char)
    ensures
        as_text(t.push(c)) == as_text(t).push(Some(c)),
{
    assert(as_text(t.push(c)) =~= as_text(t).push(Some(c)));
}

proof fn lemma_hole_count_text(t: Seq<char>)
    ensures
        hole_count(as_text(t)) == 0,
    decreases t.len(),
{
    if t.len() > 0 {
        assert(as_text(t).drop_last() =~= as_text(t.drop_last()));
        lemma_hole_count_text(t.drop_last());
    }
}

/// Splits a format string into its fixed text and placeholders.
pub fn classify_format(text: &str) -> (r: FormatClass)
    ensures
        r is Invalid <==> fmt_pieces(text@) is None,
        r is Text <==> (fmt_pieces(text@) matches Some(ps) && hole_count(ps) == 0),
        r is OneHole <==> (fmt_pieces(text@) matches Some(ps) && hole_count(ps) == 1),
        r is ManyHoles <==> (fmt_pieces(text@) matches Some(ps) && hole_count(ps) >= 2),
        r matches FormatClass::Text(t) ==> fmt_pieces(text@) == Some(as_text(t@)),
        r matches FormatClass::OneHole(p, q) ==> fmt_pieces(text@) == Some(
            as_text(p@) + seq![None] + as_text(q@),
        ),
{
    let s = str_chars(text);
    let n = s.len();
    let mut before = String::new();
    let mut after = String::new();
    let mut holes: usize = 0;
    let ghost mut done: Seq<Option<char>> = Seq::empty();
    let mut i: usize = 0;
    proof {
        assert(s@.skip(0) =~= s@);
        assert(as_text(before@) =~= Seq::<Option<char>>::empty());
    }
    while i < n
        invariant
            n == s@.len(),
            s@ == text@,
            i <= n,
            holes <= i,
            fmt_pieces(text@) == append_pieces(done, fmt_pieces(s@.skip(i as int))),
            hole_count(done) == holes,
            holes == 0 ==> done == as_text(before@),
            holes == 0 ==> after@ == Seq::<char>::empty(),
            holes == 1 ==> done == as_text(before@) + seq![None] + as_text(after@),
        decreases n - i,
    {
        let c = s[i];
        let ghost rest = s@.skip(i as int);
        let piece: Option<char>;
        let step: usize;
        if c == '{' {
            if i + 1 < n && s[i + 1] == '{' {
                piece = Some('{');
                step = 2;
            } else if i + 1 < n && s[i + 1] == '}' {
                piece = None;
                step = 2;
            } else {
                proof {
                    assert(fmt_pieces(rest) is None);
                }
                return FormatClass::Invalid;
            }
        } else if c == '}' {
            if i + 1 < n && s[i + 1] == '}' {
                piece = Some('}');
                step = 2;
            } else {
                proof {
                    assert(fmt_pieces(rest) is None);
                }
                return FormatClass::Invalid;
            }
        } else {
            piece = Some(c);
            step = 1;
        }
        proof {
            assert(rest.skip(step as int) =~= s@.skip(i + step));
            assert(fmt_pieces(rest) == prepend_piece(piece, fmt_pieces(s@.skip(i + step))));
            match fmt_pieces(s@.skip(i + step)) {
                Some(r) => {
                    assert(done + (seq![piece] + r) =~= done.push(piece) + r);
                },
                None => {},
            }
            assert(done.push(piece).drop_last() =~= done);
        }
        match piece {
            Some(ch) => {
                if holes == 0 {
                    proof {
                        lemma_as_text_push(before@, ch);
                    }
                    string_push(&mut before, ch);
                } else if holes == 1 {
                    proof {
                        lemma_as_text_push(after@, ch);
                        assert(as_text(before@) + seq![None] + as_text(after@).push(Some(ch))
                            =~= (as_text(before@) + seq![None] + as_text(after@)).push(Some(ch)));
                    }
                    string_push(&mut after, ch);
                }
            },
            None => {
                proof {
                    if holes == 0 {
                        assert(after@ =~= Seq::<char>::empty());
                        assert(as_text(after@) =~= Seq::<Option<char>>::empty());
                        assert(as_text(before@) + seq![None] + as_text(after@) =~= as_text(before@).push(None));
                    }
                }
                holes = holes + 1;
            },
        }
        proof {
            done = done.push(piece);
        }
        i = i + step;
    }
    proof {
        assert(s@.skip(n as int) =~= Seq::<char>::empty());
        assert(done + Seq::<Option<char>>::empty() =~= done);
        lemma_hole_count_text(before@);
    }
    if holes == 0 {
        FormatClass::Text(before)
    } else if holes == 1 {
        FormatClass::OneHole(before, after)
    } else {
        FormatClass::ManyHoles
    }
}

/// Rendering a concatenation of pieces renders each part in turn.
pub proof fn lemma_render_concat(ps: Seq<Option<char>>, qs: Seq<Option<char>>, shown: Seq<char>)
    ensures
        render_pieces(ps + qs, shown) == render_pieces(ps, shown) + render_pieces(qs, shown),
    decreases qs.len(),
{
    if qs.len() == 0 {
        assert(ps + qs =~= ps);
        assert(render_pieces(ps, shown) + Seq::<char>::empty() =~= render_pieces(ps, shown));
    } else {
        assert((ps + qs).drop_last() =~= ps + qs.drop_last());
        assert((ps + qs).last() == qs.last());
        lemma_render_concat(ps, qs.drop_last(), shown);
        let tail = match qs.last() {
            Some(c) => seq![c],
            None => shown,
        };
        assert(render_pieces(ps, shown) + render_pieces(qs.drop_last(), shown) + tail
            =~= render_pieces(ps, shown) + (render_pieces(qs.drop_last(), shown) + tail));
    }
}

/// Law: placeholder-free pieces write their text verbatim, whatever would fill a placeholder.
pub proof fn law_text_renders_verbatim(t: Seq<char>, shown: Seq<char>)
    ensures
        render_pieces(as_text(t), shown) == t,
    decreases t.len(),
{
    if t.len() > 0 {
        assert(as_text(t).drop_last() =~= as_text(t.drop_last()));
        law_text_renders_verbatim(t.drop_last(), shown);
        assert(t.drop_last().push(t.last()) =~= t);
    }
}

/// Law: pieces with one placeholder write the text before it, what fills it, and the text after it.
pub proof fn law_placeholder_renders_between(before: Seq<char>, shown: Seq<char>, after: Seq<char>)
    ensures
        render_pieces(as_text(before) + seq![None] + as_text(after), shown) == before + shown + after,
{
    lemma_render_concat(as_text(before) + seq![None], as_text(after), shown);
    lemma_render_concat(as_text(before), seq![None], shown);
    law_text_renders_verbatim(before, shown);
    law_text_renders_verbatim(after, shown);
    let one: Seq<Option<char>> = seq![None];
    assert(one.drop_last() =~= Seq::<Option<char>>::empty());
    assert(one.last() == None::<char>);
    assert(render_pieces(one.drop_last(), shown) == Seq::<char>::empty());
    assert(Seq::<char>::empty() + shown =~= shown);
    assert(render_pieces(one, shown) =~= shown);
}

/// The text of a field rendered through a format with one placeholder:
/// `before`, the field's `Display` output `shown`, then `after`.
pub fn fill_placeholder(before: &str, shown: &str, after: &str) -> (s: String)
    ensures
        s@ == render_pieces(as_text(before@) + seq![None] + as_text(after@), shown@),
        s@ == before@ + shown@ + after@,
{
    proof {
        law_placeholder_renders_between(before@, shown@, after@);
    }
    let mut s = before.to_owned();
    s.append(shown);
    s.append(after);
    s
}

/// Brace-free text reads as itself, piece for piece, before whatever follows it.
proof fn lemma_pieces_of_plain_prefix(t: Seq<char>, rest: Seq<char>)
    requires
        forall|i: int| 0 <= i < t.len() ==> t[i] != '{' && t[i] != '}',
    ensures
        fmt_pieces(t + rest) == append_pieces(as_text(t), fmt_pieces(rest)),
    decreases t.len(),
{
    if t.len() == 0 {
        assert(t + rest =~= rest);
        match fmt_pieces(rest) {
            Some(r) => assert(as_text(t) + r =~= r),
            None => {},
        }
    } else {
        let u = t + rest;
        assert(u[0] == t[0]);
        assert(u.skip(1) =~= t.skip(1) + rest);
        lemma_pieces_of_plain_prefix(t.skip(1), rest);
        assert(as_text(t) =~= seq![Some(t[0])] + as_text(t.skip(1)));
        match fmt_pieces(rest) {
            Some(r) => {
                assert(seq![Some(t[0])] + (as_text(t.skip(1)) + r) =~= as_text(t) + r);
            },
            None => {},
        }
    }
}

/// Law: a format string `before{}after` whose fixed texts hold no brace reads
/// as those texts with one placeholder between them; a brace-free text reads
/// as itself, with no placeholder.
pub proof fn law_plain_format_reads_as_written(before: Seq<char>, after: Seq<char>)
    requires
        forall|i: int| 0 <= i < before.len() ==> before[i] != '{' && before[i] != '}',
        forall|i: int| 0 <= i < after.len() ==> after[i] != '{' && after[i] != '}',
    ensures
        fmt_pieces(before + seq!['{', '}'] + after) == Some(as_text(before) + seq![None] + as_text(after)),
        hole_count(as_text(before) + seq![None] + as_text(after)) == 1,
        fmt_pieces(before) == Some(as_text(before)),
        hole_count(as_text(before)) == 0,
{
    let hole = seq!['{', '}'] + after;
    assert(before + seq!['{', '}'] + after =~= before + hole);
    lemma_pieces_of_plain_prefix(before, hole);
    assert(hole.skip(2) =~= after);
    lemma_pieces_of_plain_prefix(after, Seq::empty());
    assert(after + Seq::<char>::empty() =~= after);
    assert(fmt_pieces(Seq::<char>::empty()) == Some(Seq::<Option<char>>::empty()));
    assert(as_text(after) + Seq::<Option<char>>::empty() =~= as_text(after));
    assert(fmt_pieces(hole) == Some(seq![None::<char>] + as_text(after)));
    assert(as_text(before) + (seq![None::<char>] + as_text(after)) =~= as_text(before) + seq![None]
        + as_text(after));
    lemma_pieces_of_plain_prefix(before, Seq::empty());
    assert(before + Seq::<char>::empty() =~= before);
    assert(as_text(before) + Seq::<Option<char>>::empty() =~= as_text(before));
    lemma_hole_count_text(before);
    lemma_hole_count_text(after);
    lemma_hole_count_concat(as_text(before) + seq![None], as_text(after));
    lemma_hole_count_concat(as_text(before), seq![None]);
    let one: Seq<Option<char>> = seq![None];
    assert(one.drop_last() =~= Seq::<Option<char>>::empty());
    assert(hole_count(Seq::<Option<char>>::empty()) == 0);
    assert(one.last() is None);
    assert(hole_count(one) == 1);
    assert(hole_count(as_text(before) + one) == 1);
}

/// Counting the placeholders of a concatenation adds the counts of its parts.
proof fn lemma_hole_count_concat(ps: Seq<Option<char>>, qs: Seq<Option<char>>)
    ensures
        hole_count(ps + qs) == hole_count(ps) + hole_count(qs),
    decreases qs.len(),
{
    if qs.len() == 0 {
        assert(ps + qs =~= ps);
    } else {
        assert((ps + qs).drop_last() =~= ps + qs.drop_last());
        assert((ps + qs).last() == qs.last());
        lemma_hole_count_concat(ps, qs.drop_last());
    }
}

} // verus!
