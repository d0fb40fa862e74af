use vstd::prelude::*;
use vstd::string::StringExecFns;

verus! {

/// How a group's tokens are enclosed.
#[derive(Clone, Copy, PartialEq, Eq, Structural)]
pub enum Delimiter {
    /// `( ... )`
    Parenthesis,
    /// `{ ... }`
    Brace,
    /// `[ ... ]`
    Bracket,
    /// No visible delimiters.
    Invisible,
}

/// What kind of token a token tree is.
pub enum TokenKind {
    /// An identifier or keyword; the tree's `text` is its name (with `r#` for raw identifiers).
    Ident,
    /// A punctuation character, and whether it is joined to the next one (as in `::`).
    Punct(char, bool),
    /// A literal; the tree's `text` is its source form.
    Literal,
    /// A delimited group and the trees inside it.
    Group(Delimiter, Vec<TokenTree>),
}

/// A token tree of a macro's input, as plain values.
pub struct TokenTree {
    /// The kind of token.
    pub kind: TokenKind,
    /// The token's source text (for a group: delimiters and contents).
    pub text: String,
}

/// Whether `t` is the punctuation character `c`, joined to the next token or not.
pub open spec fn is_punct(t: TokenTree, c: char) -> bool {
    t.kind matches TokenKind::Punct(ch, _) && ch == c
}

/// Whether `t` is a comma.
pub open spec fn is_comma(t: TokenTree) -> bool {
    is_punct(t, ',')
}

/// Whether `t` is an identifier (or keyword) token.
pub open spec fn is_ident_token(t: TokenTree) -> bool {
    t.kind is Ident
}

/// Whether `t` is a parenthesized group.
pub open spec fn is_paren_group(t: TokenTree) -> bool {
    t.kind matches TokenKind::Group(d, _) && d == Delimiter::Parenthesis
}

/// What goes between `t` and the token after it when a stream is printed:
/// nothing after a joined punctuation character, one space otherwise.
pub open spec fn gap_after(t: TokenTree) -> Seq<char> {
    if t.kind matches TokenKind::Punct(_, joint) && joint {
        Seq::empty()
    } else {
        seq![' ']
    }
}

/// The source text of a run of token trees, printed as a token stream prints.
pub open spec fn run_text(tokens: Seq<TokenTree>) -> Seq<char>
    decreases tokens.len(),
{
    if tokens.len() == 0 {
        Seq::empty()
    } else if tokens.len() == 1 {
        tokens[0].text@
    } else {
        run_text(tokens.drop_last()) + gap_after(tokens[tokens.len() - 2]) + tokens.last().text@
    }
}

/// `proc_macro2::TokenStream`, which `trees_of` converts.
#[verifier::external_type_specification]
#[verifier::external_body]
pub struct ExTokenStream(proc_macro2::TokenStream);

/// `proc_macro2::Group`, whose delimiter `delimiter_of` converts.
#[verifier::external_type_specification]
#[verifier::external_body]
pub struct ExGroup(proc_macro2::Group);

/// Converts the delimiter of a `proc_macro2` group into the library's, variant
/// for variant.
#[verifier::external_body]
fn delimiter_of(g: &proc_macro2::Group) -> Delimiter {
    match g.delimiter() {
        proc_macro2::Delimiter::Parenthesis => Delimiter::Parenthesis,
        proc_macro2::Delimiter::Brace => Delimiter::Brace,
        proc_macro2::Delimiter::Bracket => Delimiter::Bracket,
        proc_macro2::Delimiter::None => Delimiter::Invisible,
    }
}

/// Converts a `proc_macro2` token stream into the library's token trees, one
/// for one: each tree's kind (a group with its delimiter and inner trees, an
/// identifier, a punctuation character with its spacing, a literal) and the
/// text it prints as. Part of the conversion of what `syn` parses; nothing is
/// stated of it.
#[verifier::external_body]
pub(crate) fn trees_of(stream: proc_macro2::TokenStream) -> Vec<TokenTree> {
    let mut out = Vec::new();
    for tt in stream {
        let text = tt.to_string();
        let kind = match tt {
            proc_macro2::TokenTree::Group(g) => {
                TokenKind::Group(delimiter_of(&g), trees_of(g.stream()))
            },
            proc_macro2::TokenTree::Ident(_) => TokenKind::Ident,
            proc_macro2::TokenTree::Punct(p) => TokenKind::Punct(p.as_char(), p.spacing() == proc_macro2::Spacing::Joint),
            proc_macro2::TokenTree::Literal(_) => TokenKind::Literal,
        };
        out.push(TokenTree { kind, text });
    }
    out
}

/// Whether `syn`, lexing `text` with `proc-macro2`'s own lexer, parses it in
/// full as one Rust expression (`syn::Expr`).
pub uninterp spec fn syn_parses_expr(text: Seq<char>) -> bool;

/// Whether `syn`, lexing `text` with `proc-macro2`'s own lexer, parses it in
/// full as one identifier (`syn::Ident`), which holds of identifiers and raw
/// identifiers but not of keywords.
pub uninterp spec fn syn_parses_ident(text: Seq<char>) -> bool;

/// The value of the string literal `text`, when `syn`, lexing `text` with
/// `proc-macro2`'s own lexer, parses it in full as one string literal
/// (`syn::LitStr`), and `None` otherwise.
pub uninterp spec fn syn_lit_str_value(text: Seq<char>) -> Option<Seq<char>>;

/// Calls `syn::parse_str::<syn::Expr>` and says whether it succeeded; the
/// result is named `syn_parses_expr`. Around the call `proc_macro2::fallback`
/// is forced, so the text is lexed by `proc-macro2`'s own lexer, whatever
/// process runs it: the answer is a function of the text (inside a macro the
/// compiler's lexer would answer for the caller's edition). `unforce` then
/// hands the compiler's implementation back where it is available.
#[verifier::external_body]
fn parses_as_expr(text: &str) -> (b: bool)
    ensures
        b == syn_parses_expr(text@),
{
    proc_macro2::fallback::force();
    let parsed = syn::parse_str::<syn::Expr>(text).is_ok();
    proc_macro2::fallback::unforce();
    parsed
}

/// Calls `syn::parse_str::<syn::Ident>` and says whether it succeeded, with
/// `proc-macro2`'s own lexer forced as for `parses_as_expr`; the result is
/// named `syn_parses_ident`.
#[verifier::external_body]
pub(crate) fn parses_as_ident(text: &str) -> (b: bool)
    ensures
        b == syn_parses_ident(text@),
{
    proc_macro2::fallback::force();
    let parsed = syn::parse_str::<syn::Ident>(text).is_ok();
    proc_macro2::fallback::unforce();
    parsed
}

/// Calls `syn::parse_str::<syn::LitStr>` and, when it succeeds, `LitStr::value`,
/// with `proc-macro2`'s own lexer forced as for `parses_as_expr`; the result is
/// named `syn_lit_str_value`.
#[verifier::external_body]
pub(crate) fn lit_str_value(text: &str) -> (r: Option<String>)
    ensures
        r is Some <==> syn_lit_str_value(text@) is Some,
        r matches Some(v) ==> v@ == syn_lit_str_value(text@)->0,
{
    proc_macro2::fallback::force();
    let parsed = syn::parse_str::<syn::LitStr>(text);
    proc_macro2::fallback::unforce();
    match parsed {
        Ok(lit) => Some(lit.value()),
        Err(_) => None,
    }
}

/// Whether `text` is an identifier that `syn` accepts where it expects one
/// (not a keyword).
pub open spec fn names_ident(t: TokenTree) -> bool {
    is_ident_token(t) && syn_parses_ident(t.text@)
}

/// Whether the identifier token `t` is the word `word`.
pub open spec fn is_word(t: TokenTree, word: Seq<char>) -> bool {
    is_ident_token(t) && t.text@ == word
}

/// Where the expression that starts at `start` ends, looking no earlier than
/// `b`: the first position `b' >= b` that is the end of `tokens` or holds a
/// comma, such that `syn` parses `tokens[start..b']` as one expression.
pub open spec fn expr_end_from(tokens: Seq<TokenTree>, start: int, b: int) -> Option<int>
    decreases tokens.len() - b,
{
    if b < start || b > tokens.len() {
        None
    } else if (b == tokens.len() || is_comma(tokens[b])) && syn_parses_expr(
        run_text(tokens.subrange(start, b)),
    ) {
        Some(b)
    } else if b == tokens.len() {
        None
    } else {
        expr_end_from(tokens, start, b + 1)
    }
}

/// Where the expression that `syn` parses from `tokens[start..]`, followed by a
/// comma or by nothing, ends: the first such end at which the tokens from `start`
/// form one whole expression (`syn` stops an expression only at a comma that no
/// closure parameter list or generic argument list holds).
pub open spec fn expr_end(tokens: Seq<TokenTree>, start: int) -> Option<int> {
    expr_end_from(tokens, start, start)
}

/// An expression's end lies between its start and the end of the tokens.
pub proof fn lemma_expr_end_range(tokens: Seq<TokenTree>, start: int, b: int)
    requires
        start <= b,
    ensures
        expr_end_from(tokens, start, b) matches Some(e) ==> b <= e <= tokens.len() && (e
            == tokens.len() || is_comma(tokens[e])),
    decreases tokens.len() - b,
{
    if b <= tokens.len() && !((b == tokens.len() || is_comma(tokens[b])) && syn_parses_expr(
        run_text(tokens.subrange(start, b)),
    )) && b < tokens.len() {
        lemma_expr_end_range(tokens, start, b + 1);
    }
}

/// Appends `s` to `out`.
fn push_str(out: &mut String, s: &str)
    ensures
        final(out)@ == old(out)@ + s@,
{
    out.append(s);
}

/// The text of `tokens[start..end]`, printed as a token stream prints.
pub fn run_to_string(tokens: &Vec<TokenTree>, start: usize, end: usize) -> (s: String)
    requires
        start <= end <= tokens@.len(),
    ensures
        s@ == run_text(tokens@.subrange(start as int, end as int)),
{
    let mut s = String::new();
    let mut i = start;
    while i < end
        invariant
            start <= i <= end <= tokens@.len(),
            s@ == run_text(tokens@.subrange(start as int, i as int)),
        decreases end - i,
    {
        if i > start {
            match &tokens[i - 1].kind {
                TokenKind::Punct(_, joint) => {
                    if !*joint {
                        push_str(&mut s, " ");
                    }
                },
                _ => {
                    push_str(&mut s, " ");
                },
            }
        }
        push_str(&mut s, tokens[i].text.as_str());
        proof {
            reveal_strlit(" ");
            let run = tokens@.subrange(start as int, i + 1);
            assert(run.drop_last() =~= tokens@.subrange(start as int, i as int));
            if i > start {
                assert(run[run.len() - 2] == tokens@[i - 1]);
            }
        }
        i = i + 1;
    }
    s
}

/// The end of the expression that starts at `start` (see `expr_end`).
pub fn find_expr_end(tokens: &Vec<TokenTree>, start: usize) -> (r: Option<usize>)
    requires
        start <= tokens@.len(),
    ensures
        r is Some <==> expr_end(tokens@, start as int) is Some,
        r matches Some(e) ==> expr_end(tokens@, start as int) == Some(e as int),
{
    let n = tokens.len();
    let mut b = start;
    while b <= n
        invariant
            start <= b,
            n == tokens@.len(),
            start <= n,
            expr_end(tokens@, start as int) == expr_end_from(tokens@, start as int, b as int),
        decreases n + 1 - b,
    {
        let at_boundary = b == n || match &tokens[b].kind {
            TokenKind::Punct(c, _) => *c == ',',
            _ => false,
        };
        if at_boundary {
            let text = run_to_string(tokens, start, b);
            if parses_as_expr(text.as_str()) {
                return Some(b);
            }
        }
        if b == n {
            return None;
        }
        b = b + 1;
    }
    None
}

/// Whether `syn` parses some run of the tokens from `start`, of one token or
/// more, as one expression: whether an expression can be read there at all,
/// whatever follows it.
pub open spec fn expr_prefix_parses(tokens: Seq<TokenTree>, start: int) -> bool {
    exists|b: int|
        start < b <= tokens.len() && #[trigger] syn_parses_expr(run_text(tokens.subrange(start, b)))
}

/// Whether an expression can be read from `start` (see `expr_prefix_parses`).
pub fn has_expr_prefix(tokens: &Vec<TokenTree>, start: usize) -> (r: bool)
    requires
        start <= tokens@.len(),
    ensures
        r == expr_prefix_parses(tokens@, start as int),
{
    let n = tokens.len();
    let mut b = start;
    while b < n
        invariant
            start <= b <= n,
            n == tokens@.len(),
            forall|k: int|
                start < k <= b ==> !#[trigger] syn_parses_expr(run_text(tokens@.subrange(start as int, k))),
        decreases n - b,
    {
        let text = run_to_string(tokens, start, b + 1);
        if parses_as_expr(text.as_str()) {
            return true;
        }
        b = b + 1;
    }
    false
}

/// Law: a run of token trees prints as the first tree's text, then each next
/// tree's text after one space, or directly after a joined punctuation
/// character; a single tree prints as its text and no tree as nothing.
pub proof fn law_runs_print_spaced(ts: Seq<TokenTree>, t: TokenTree)
    ensures
        run_text(Seq::empty()) == Seq::<char>::empty(),
        run_text(seq![t]) == t.text@,
        ts.len() > 0 ==> run_text(ts.push(t)) == run_text(ts) + (if ts.last().kind matches TokenKind::Punct(_, j) && j {
            Seq::<char>::empty()
        } else {
            seq![' ']
        }) + t.text@,
{
    if ts.len() > 0 {
        let u = ts.push(t);
        assert(u.drop_last() =~= ts);
        assert(u[u.len() - 2] == ts.last());
    }
}

} // verus!
