//! The tokenizer: raw template text is split on the `{{ ... }}` and
//! `{% ... %}` delimiters into elements (literal runs, expressions, tag
//! invocations), and the text inside a delimiter span is split into tokens
//! (identifiers, numbers, quoted strings, punctuation). The grammar is
//! stated by spec functions that the executable scanner is proved to match.

use vstd::prelude::*;
use vstd::string::*;

verus! {

broadcast use vstd::std_specs::vec::group_vec_axioms, vstd::seq::group_seq_axioms;

/// An atomic lexical unit inside a delimiter span.
#[derive(Debug)]
pub enum Token {
    Identifier(String),
    NumberLiteral(i64),
    StringLiteral(String),
    Pipe,
    Dot,
    Colon,
    Comma,
}

/// The model of a token.
pub enum TokenV {
    Identifier(Seq<char>),
    NumberLiteral(i64),
    StringLiteral(Seq<char>),
    Pipe,
    Dot,
    Colon,
    Comma,
}

impl View for Token {
    type V = TokenV;

    open spec fn view(&self) -> TokenV {
        match self {
            Token::Identifier(s) => TokenV::Identifier(s@),
            Token::NumberLiteral(n) => TokenV::NumberLiteral(*n),
            Token::StringLiteral(s) => TokenV::StringLiteral(s@),
            Token::Pipe => TokenV::Pipe,
            Token::Dot => TokenV::Dot,
            Token::Colon => TokenV::Colon,
            Token::Comma => TokenV::Comma,
        }
    }
}

/// The models of a sequence of tokens.
pub open spec fn tokens_view(s: Seq<Token>) -> Seq<TokenV> {
    s.map_values(|t: Token| t@)
}

/// One parse-time unit: a literal text run, an expression span, or a tag
/// span. Expression and tag elements carry their token sequence and their
/// full source text, delimiters included.
#[derive(Debug)]
pub enum Element {
    Raw(String),
    Expression(Vec<Token>, String),
    Tag(Vec<Token>, String),
}

/// The model of an element.
pub enum ElemV {
    Raw(Seq<char>),
    Expression(Seq<TokenV>, Seq<char>),
    Tag(Seq<TokenV>, Seq<char>),
}

impl View for Element {
    type V = ElemV;

    open spec fn view(&self) -> ElemV {
        match self {
            Element::Raw(s) => ElemV::Raw(s@),
            Element::Expression(toks, s) => ElemV::Expression(tokens_view(toks@), s@),
            Element::Tag(toks, s) => ElemV::Tag(tokens_view(toks@), s@),
        }
    }
}

/// The models of a sequence of elements.
pub open spec fn elems_view(s: Seq<Element>) -> Seq<ElemV> {
    s.map_values(|e: Element| e@)
}

/// The errors the tokenizer can signal.
#[derive(Clone, Copy, Debug, PartialEq, Eq)]
pub enum LexError {
    UnterminatedDelimiter,
    UnterminatedString,
    NumberOverflow,
    UnexpectedCharacter,
}

pub open spec fn is_space(c: char) -> bool {
    c == ' ' || c == '\t' || c == '\n' || c == '\r'
}

pub open spec fn is_digit(c: char) -> bool {
    '0' as u32 <= c as u32 && c as u32 <= '9' as u32
}

pub open spec fn digit_val(c: char) -> int {
    c as u32 - '0' as u32
}

pub open spec fn is_ident_start(c: char) -> bool {
    ('a' as u32 <= c as u32 && c as u32 <= 'z' as u32) || ('A' as u32 <= c as u32 && c as u32
        <= 'Z' as u32) || c == '_'
}

pub open spec fn is_ident_char(c: char) -> bool {
    is_ident_start(c) || is_digit(c)
}

/// Whether an opening delimiter (`{{` or `{%`) starts at `i`.
pub open spec fn open_at(s: Seq<char>, i: int) -> bool {
    0 <= i && i + 1 < s.len() && s[i] == '{' && (s[i + 1] == '{' || s[i + 1] == '%')
}

/// The first opening delimiter at or after `i`.
pub open spec fn find_open_from(s: Seq<char>, i: int) -> Option<int>
    decreases s.len() - i,
{
    if i >= s.len() {
        None
    } else if open_at(s, i) {
        Some(i)
    } else {
        find_open_from(s, i + 1)
    }
}

pub proof fn lemma_find_open_from(s: Seq<char>, i: int)
    ensures
        match find_open_from(s, i) {
            Some(k) => i <= k && k + 1 < s.len() && open_at(s, k),
            None => true,
        },
    decreases s.len() - i,
{
    if i < s.len() && !open_at(s, i) {
        lemma_find_open_from(s, i + 1);
    }
}

/// The first position at or after `i` where `c1` is followed by `}`.
pub open spec fn find_pair_from(s: Seq<char>, i: int, c1: char) -> Option<int>
    decreases s.len() - i,
{
    if i + 1 >= s.len() {
        None
    } else if s[i] == c1 && s[i + 1] == '}' && i >= 0 {
        Some(i)
    } else {
        find_pair_from(s, i + 1, c1)
    }
}

pub proof fn lemma_find_pair_from(s: Seq<char>, i: int, c1: char)
    ensures
        match find_pair_from(s, i, c1) {
            Some(m) => i <= m && m + 1 < s.len() && s[m] == c1 && s[m + 1] == '}',
            None => true,
        },
    decreases s.len() - i,
{
    if i + 1 < s.len() && !(s[i] == c1 && s[i + 1] == '}' && i >= 0) {
        lemma_find_pair_from(s, i + 1, c1);
    }
}

/// The first position in `[i, end)` holding the quote character `q`.
pub open spec fn find_quote_from(s: Seq<char>, i: int, end: int, q: char) -> Option<int>
    decreases end - i,
{
    if i >= end {
        None
    } else if s[i] == q {
        Some(i)
    } else {
        find_quote_from(s, i + 1, end, q)
    }
}

pub proof fn lemma_find_quote_from(s: Seq<char>, i: int, end: int, q: char)
    ensures
        match find_quote_from(s, i, end, q) {
            Some(m) => i <= m && m < end && s[m] == q,
            None => true,
        },
    decreases end - i,
{
    if i < end && s[i] != q {
        lemma_find_quote_from(s, i + 1, end, q);
    }
}

/// The end of the run of digits starting at `i`, capped at `end`.
pub open spec fn digits_end(s: Seq<char>, i: int, end: int) -> int
    decreases end - i,
{
    if i >= end || !is_digit(s[i]) {
        i
    } else {
        digits_end(s, i + 1, end)
    }
}

pub proof fn lemma_digits_end(s: Seq<char>, i: int, end: int)
    requires
        i <= end,
    ensures
        i <= digits_end(s, i, end) <= end,
        forall|k: int| i <= k < digits_end(s, i, end) ==> is_digit(s[k]),
    decreases end - i,
{
    if i < end && is_digit(s[i]) {
        lemma_digits_end(s, i + 1, end);
    }
}

/// The end of the run of identifier characters starting at `i`.
pub open spec fn ident_end(s: Seq<char>, i: int, end: int) -> int
    decreases end - i,
{
    if i >= end || !is_ident_char(s[i]) {
        i
    } else {
        ident_end(s, i + 1, end)
    }
}

pub proof fn lemma_ident_end(s: Seq<char>, i: int, end: int)
    requires
        i <= end,
    ensures
        i <= ident_end(s, i, end) <= end,
    decreases end - i,
{
    if i < end && is_ident_char(s[i]) {
        lemma_ident_end(s, i + 1, end);
    }
}

/// The numeric value of a run of decimal digit characters.
pub open spec fn digits_val(ds: Seq<char>) -> int
    decreases ds,
{
    if ds.len() == 0 {
        0
    } else {
        digits_val(ds.drop_last()) * 10 + digit_val(ds.last())
    }
}

pub proof fn lemma_digits_val_nonneg(ds: Seq<char>)
    requires
        forall|k: int| 0 <= k < ds.len() ==> is_digit(ds[k]),
    ensures
        digits_val(ds) >= 0,
    decreases ds,
{
    if ds.len() > 0 {
        lemma_digits_val_nonneg(ds.drop_last());
    }
}

pub proof fn lemma_digits_val_prefix(ds: Seq<char>, k: int)
    requires
        0 <= k <= ds.len(),
        forall|j: int| 0 <= j < ds.len() ==> is_digit(ds[j]),
    ensures
        digits_val(ds.take(k)) <= digits_val(ds),
    decreases ds.len() - k,
{
    if k < ds.len() {
        lemma_digits_val_prefix(ds, k + 1);
        assert(ds.take(k + 1).drop_last() =~= ds.take(k));
        assert(ds.take(k + 1).last() == ds[k]);
        lemma_digits_val_nonneg(ds.take(k));
        assert(digits_val(ds.take(k + 1)) == digits_val(ds.take(k)) * 10 + digit_val(ds[k]));
    } else {
        assert(ds.take(k) =~= ds);
    }
}

/// The token sequence of the span `[i, end)`: whitespace separates tokens,
/// a digit starts a number, a letter or underscore an identifier, a quote
/// a string literal ended by the same quote, and `| . : ,` stand alone.
/// Any other character is an error, as is a number beyond the numeric
/// range or an unterminated string.
pub open spec fn spec_tokens(s: Seq<char>, i: int, end: int) -> Result<Seq<TokenV>, LexError>
    decreases end - i,
{
    if i >= end {
        Ok(Seq::empty())
    } else {
        let c = s[i];
        if is_space(c) {
            spec_tokens(s, i + 1, end)
        } else if c == '|' {
            cons_token(TokenV::Pipe, spec_tokens(s, i + 1, end))
        } else if c == '.' {
            cons_token(TokenV::Dot, spec_tokens(s, i + 1, end))
        } else if c == ':' {
            cons_token(TokenV::Colon, spec_tokens(s, i + 1, end))
        } else if c == ',' {
            cons_token(TokenV::Comma, spec_tokens(s, i + 1, end))
        } else if is_digit(c) {
            let j = digits_end(s, i, end);
            let v = digits_val(s.subrange(i, j));
            proof {
                lemma_digits_end(s, i + 1, end);
            }
            if v > i64::MAX as int {
                Err(LexError::NumberOverflow)
            } else {
                cons_token(TokenV::NumberLiteral(v as i64), spec_tokens(s, j, end))
            }
        } else if is_ident_start(c) {
            let j = ident_end(s, i, end);
            proof {
                lemma_ident_end(s, i + 1, end);
            }
            cons_token(TokenV::Identifier(s.subrange(i, j)), spec_tokens(s, j, end))
        } else if c == '\'' || c == '"' {
            match find_quote_from(s, i + 1, end, c) {
                None => Err(LexError::UnterminatedString),
                Some(q) => {
                    proof {
                        lemma_find_quote_from(s, i + 1, end, c);
                    }
                    cons_token(
                        TokenV::StringLiteral(s.subrange(i + 1, q)),
                        spec_tokens(s, q + 1, end),
                    )
                },
            }
        } else {
            Err(LexError::UnexpectedCharacter)
        }
    }
}

/// Prepends a token to a token-list result.
pub open spec fn cons_token(t: TokenV, r: Result<Seq<TokenV>, LexError>) -> Result<
    Seq<TokenV>,
    LexError,
> {
    match r {
        Ok(rest) => Ok(seq![t] + rest),
        Err(e) => Err(e),
    }
}

/// Prepends elements to an element-list result.
pub open spec fn cons_elems(pre: Seq<ElemV>, r: Result<Seq<ElemV>, LexError>) -> Result<
    Seq<ElemV>,
    LexError,
> {
    match r {
        Ok(rest) => Ok(pre + rest),
        Err(e) => Err(e),
    }
}

/// The element sequence of the text from `i` on: everything before the
/// next opening delimiter is a literal run; a `{{` span becomes an
/// expression element and a `{%` span a tag element, each ended by its
/// matching closing delimiter and carrying its tokens and its source text;
/// an opening delimiter with no closing one is an error.
pub open spec fn spec_elements(s: Seq<char>, i: int) -> Result<Seq<ElemV>, LexError>
    decreases s.len() - i,
{
    if i >= s.len() {
        Ok(Seq::empty())
    } else {
        match find_open_from(s, i) {
            None => Ok(seq![ElemV::Raw(s.subrange(i, s.len() as int))]),
            Some(k) => {
                proof {
                    lemma_find_open_from(s, i);
                }
                let pre: Seq<ElemV> = if k > i {
                    seq![ElemV::Raw(s.subrange(i, k))]
                } else {
                    Seq::empty()
                };
                let is_expr = s[k + 1] == '{';
                let closer = if is_expr {
                    '}'
                } else {
                    '%'
                };
                match find_pair_from(s, k + 2, closer) {
                    None => Err(LexError::UnterminatedDelimiter),
                    Some(m) => {
                        proof {
                            lemma_find_pair_from(s, k + 2, closer);
                        }
                        match spec_tokens(s, k + 2, m) {
                            Err(e) => Err(e),
                            Ok(toks) => {
                                let text = s.subrange(k, m + 2);
                                let el = if is_expr {
                                    ElemV::Expression(toks, text)
                                } else {
                                    ElemV::Tag(toks, text)
                                };
                                cons_elems(pre.push(el), spec_elements(s, m + 2))
                            },
                        }
                    },
                }
            },
        }
    }
}

proof fn lemma_tokens_step(
    s: Seq<char>,
    from: int,
    to: int,
    i: int,
    j: int,
    tv: Seq<TokenV>,
    tok: TokenV,
)
    requires
        spec_tokens(s, i, to) == cons_token(tok, spec_tokens(s, j, to)),
        match spec_tokens(s, i, to) {
            Ok(r0) => spec_tokens(s, from, to) == Ok::<Seq<TokenV>, LexError>(tv + r0),
            Err(e0) => spec_tokens(s, from, to) == Err::<Seq<TokenV>, LexError>(e0),
        },
    ensures
        match spec_tokens(s, j, to) {
            Ok(rest) => spec_tokens(s, from, to) == Ok::<Seq<TokenV>, LexError>(
                tv.push(tok) + rest,
            ),
            Err(e) => spec_tokens(s, from, to) == Err::<Seq<TokenV>, LexError>(e),
        },
{
    match spec_tokens(s, j, to) {
        Ok(rest) => {
            assert(tv + (seq![tok] + rest) =~= tv.push(tok) + rest);
        },
        Err(e) => {},
    }
}

proof fn lemma_elems_step(s: Seq<char>, i: int, j: int, ev: Seq<ElemV>, added: Seq<ElemV>)
    requires
        spec_elements(s, i) == cons_elems(added, spec_elements(s, j)),
        match spec_elements(s, i) {
            Ok(r0) => spec_elements(s, 0) == Ok::<Seq<ElemV>, LexError>(ev + r0),
            Err(e0) => spec_elements(s, 0) == Err::<Seq<ElemV>, LexError>(e0),
        },
    ensures
        match spec_elements(s, j) {
            Ok(rest) => spec_elements(s, 0) == Ok::<Seq<ElemV>, LexError>((ev + added) + rest),
            Err(e) => spec_elements(s, 0) == Err::<Seq<ElemV>, LexError>(e),
        },
{
    match spec_elements(s, j) {
        Ok(rest) => {
            assert(ev + (added + rest) =~= (ev + added) + rest);
        },
        Err(e) => {},
    }
}

fn is_space_e(c: char) -> (b: bool)
    ensures
        b == is_space(c),
{
    c == ' ' || c == '\t' || c == '\n' || c == '\r'
}

fn is_digit_e(c: char) -> (b: bool)
    ensures
        b == is_digit(c),
{
    '0' as u32 <= c as u32 && c as u32 <= '9' as u32
}

fn is_ident_start_e(c: char) -> (b: bool)
    ensures
        b == is_ident_start(c),
{
    ('a' as u32 <= c as u32 && c as u32 <= 'z' as u32) || ('A' as u32 <= c as u32 && c as u32
        <= 'Z' as u32) || c == '_'
}

/// Whether the run of identifier characters continues at `j`.
fn ident_at(text: &str, j: usize, end: usize) -> (b: bool)
    requires
        j <= end,
        end <= text@.len(),
    ensures
        b == (j < end && is_ident_char(text@[j as int])),
{
    if j < end {
        let c = text.get_char(j);
        is_ident_start_e(c) || is_digit_e(c)
    } else {
        false
    }
}

/// Whether the run of digits continues at `j`.
fn digit_at(text: &str, j: usize, end: usize) -> (b: bool)
    requires
        j <= end,
        end <= text@.len(),
    ensures
        b == (j < end && is_digit(text@[j as int])),
{
    if j < end {
        is_digit_e(text.get_char(j))
    } else {
        false
    }
}

/// The first opening delimiter at or after `from`.
fn find_open_exec(text: &str, from: usize) -> (r: Option<usize>)
    requires
        from <= text@.len(),
    ensures
        match r {
            Some(k) => find_open_from(text@, from as int) == Some(k as int) && from <= k && k + 1
                < text@.len(),
            None => find_open_from(text@, from as int) is None,
        },
{
    let ghost s = text@;
    let n = text.unicode_len();
    let mut k = from;
    while k < n
        invariant
            from <= k <= n,
            n == s.len(),
            s == text@,
            find_open_from(s, from as int) == find_open_from(s, k as int),
        decreases n - k,
    {
        if k + 1 < n {
            let c0 = text.get_char(k);
            if c0 == '{' {
                let c1 = text.get_char(k + 1);
                if c1 == '{' || c1 == '%' {
                    proof {
                        assert(open_at(s, k as int));
                    }
                    return Some(k);
                }
            }
        }
        proof {
            assert(!open_at(s, k as int));
        }
        k = k + 1;
    }
    None
}

/// The first closing delimiter (`c1` then `}`) at or after `from`.
fn find_pair_exec(text: &str, from: usize, c1: char) -> (r: Option<usize>)
    requires
        from <= text@.len(),
    ensures
        match r {
            Some(m) => find_pair_from(text@, from as int, c1) == Some(m as int) && from <= m && m
                + 1 < text@.len(),
            None => find_pair_from(text@, from as int, c1) is None,
        },
{
    let ghost s = text@;
    let n = text.unicode_len();
    let mut k = from;
    while k < n
        invariant
            from <= k <= n,
            n == s.len(),
            s == text@,
            find_pair_from(s, from as int, c1) == find_pair_from(s, k as int, c1),
        decreases n - k,
    {
        if k + 1 < n {
            let c0 = text.get_char(k);
            if c0 == c1 {
                let cn = text.get_char(k + 1);
                if cn == '}' {
                    return Some(k);
                }
            }
        }
        k = k + 1;
    }
    None
}

/// The first occurrence of the quote `q` in `[from, end)`.
fn find_quote_exec(text: &str, from: usize, end: usize, q: char) -> (r: Option<usize>)
    requires
        from <= end,
        end <= text@.len(),
    ensures
        match r {
            Some(m) => find_quote_from(text@, from as int, end as int, q) == Some(m as int) && from
                <= m && m < end,
            None => find_quote_from(text@, from as int, end as int, q) is None,
        },
{
    let ghost s = text@;
    let mut k = from;
    while k < end
        invariant
            from <= k <= end,
            end <= s.len(),
            s == text@,
            find_quote_from(s, from as int, end as int, q) == find_quote_from(
                s,
                k as int,
                end as int,
                q,
            ),
        decreases end - k,
    {
        if text.get_char(k) == q {
            return Some(k);
        }
        k = k + 1;
    }
    None
}

/// Splits the span `[from, to)` into tokens.
pub fn tokenize_span(text: &str, from: usize, to: usize) -> (r: Result<Vec<Token>, LexError>)
    requires
        from <= to,
        to <= text@.len(),
    ensures
        match r {
            Ok(toks) => spec_tokens(text@, from as int, to as int) == Ok::<Seq<TokenV>, LexError>(
                tokens_view(toks@),
            ),
            Err(e) => spec_tokens(text@, from as int, to as int) == Err::<Seq<TokenV>, LexError>(e),
        },
{
    let ghost s = text@;
    let mut toks: Vec<Token> = Vec::new();
    let mut i = from;
    proof {
        assert(tokens_view(toks@) =~= Seq::<TokenV>::empty());
    }
    while i < to
        invariant
            from <= i <= to,
            to <= s.len(),
            s == text@,
            match spec_tokens(s, i as int, to as int) {
                Ok(rest) => spec_tokens(s, from as int, to as int) == Ok::<Seq<TokenV>, LexError>(
                    tokens_view(toks@) + rest,
                ),
                Err(e) => spec_tokens(s, from as int, to as int) == Err::<Seq<TokenV>, LexError>(e),
            },
        decreases to - i,
    {
        let ghost tv = tokens_view(toks@);
        let ghost i0 = i as int;
        let c = text.get_char(i);
        if is_space_e(c) {
            i = i + 1;
        } else if c == '|' || c == '.' || c == ':' || c == ',' {
            let tok = if c == '|' {
                Token::Pipe
            } else if c == '.' {
                Token::Dot
            } else if c == ':' {
                Token::Colon
            } else {
                Token::Comma
            };
            proof {
                assert(spec_tokens(s, i0, to as int) == cons_token(
                    tok@,
                    spec_tokens(s, i0 + 1, to as int),
                ));
                lemma_tokens_step(s, from as int, to as int, i0, i0 + 1, tv, tok@);
            }
            toks.push(tok);
            i = i + 1;
            proof {
                assert(tokens_view(toks@) =~= tv.push(tokens_view(toks@).last()));
            }
        } else if is_digit_e(c) {
            let ghost js = digits_end(s, i0, to as int);
            let mut j = i;
            let mut val: u64 = 0;
            proof {
                assert(s.subrange(i0, i0) =~= Seq::<char>::empty());
            }
            while digit_at(text, j, to)
                invariant
                    from <= i <= to,
                    i as int == i0,
                    i <= j <= to,
                    to <= s.len(),
                    s == text@,
                    is_digit(s[i0]),
                    js == digits_end(s, i0, to as int),
                    match spec_tokens(s, i0, to as int) {
                        Ok(rest) => spec_tokens(s, from as int, to as int) == Ok::<
                            Seq<TokenV>,
                            LexError,
                        >(tv + rest),
                        Err(e) => spec_tokens(s, from as int, to as int) == Err::<
                            Seq<TokenV>,
                            LexError,
                        >(e),
                    },
                    digits_end(s, i0, to as int) == digits_end(s, j as int, to as int),
                    forall|k: int| i0 <= k < j ==> is_digit(s[k]),
                    val == digits_val(s.subrange(i0, j as int)),
                    val <= i64::MAX as u64,
                decreases to - j,
            {
                let cj = text.get_char(j);
                let d: u64 = (cj as u32 - '0' as u32) as u64;
                proof {
                    assert(d == digit_val(s[j as int]));
                    assert(s.subrange(i0, j as int + 1).drop_last() =~= s.subrange(i0, j as int));
                    assert(s.subrange(i0, j as int + 1).last() == s[j as int]);
                    assert(digits_val(s.subrange(i0, j as int + 1)) == val * 10 + d);
                }
                if val > 922337203685477580u64 || (val == 922337203685477580u64 && d > 7) {
                    proof {
                        let full = s.subrange(i0, js);
                        lemma_digits_end(s, j as int, to as int);
                        assert(digits_end(s, j as int, to as int) == digits_end(
                            s,
                            j as int + 1,
                            to as int,
                        ));
                        lemma_digits_end(s, j as int + 1, to as int);
                        assert(j + 1 <= js);
                        lemma_digits_end(s, i0, to as int);
                        assert(forall|k: int| i0 <= k < js ==> is_digit(s[k]));
                        assert(forall|k: int| 0 <= k < full.len() ==> is_digit(full[k]));
                        lemma_digits_val_prefix(full, j as int + 1 - i0);
                        assert(full.take(j as int + 1 - i0) =~= s.subrange(i0, j as int + 1));
                        assert(digits_val(full) > i64::MAX as int);
                    }
                    return Err(LexError::NumberOverflow);
                }
                val = val * 10 + d;
                j = j + 1;
                proof {
                    assert(digits_end(s, j as int - 1, to as int) == digits_end(
                        s,
                        j as int,
                        to as int,
                    ));
                }
            }
            proof {
                assert(digits_end(s, j as int, to as int) == j as int);
                assert(js == j as int);
            }
            let tok = Token::NumberLiteral(val as i64);
            proof {
                assert(spec_tokens(s, i0, to as int) == cons_token(
                    tok@,
                    spec_tokens(s, j as int, to as int),
                ));
                lemma_tokens_step(s, from as int, to as int, i0, j as int, tv, tok@);
            }
            toks.push(tok);
            i = j;
            proof {
                assert(tokens_view(toks@) =~= tv.push(tokens_view(toks@).last()));
            }
        } else if is_ident_start_e(c) {
            let mut j = i;
            while ident_at(text, j, to)
                invariant
                    i <= j <= to,
                    to <= s.len(),
                    s == text@,
                    i as int == i0,
                    ident_end(s, i0, to as int) == ident_end(s, j as int, to as int),
                decreases to - j,
            {
                j = j + 1;
                proof {
                    assert(ident_end(s, j as int - 1, to as int) == ident_end(
                        s,
                        j as int,
                        to as int,
                    ));
                }
            }
            proof {
                assert(ident_end(s, j as int, to as int) == j as int);
            }
            let word = String::from_str(text.substring_char(i, j));
            let tok = Token::Identifier(word);
            proof {
                assert(tok@ == TokenV::Identifier(s.subrange(i0, j as int)));
                assert(spec_tokens(s, i0, to as int) == cons_token(
                    tok@,
                    spec_tokens(s, j as int, to as int),
                ));
                lemma_tokens_step(s, from as int, to as int, i0, j as int, tv, tok@);
            }
            toks.push(tok);
            i = j;
            proof {
                assert(tokens_view(toks@) =~= tv.push(tokens_view(toks@).last()));
            }
        } else if c == '\'' || c == '"' {
            match find_quote_exec(text, i + 1, to, c) {
                None => {
                    return Err(LexError::UnterminatedString);
                },
                Some(q) => {
                    let lit = String::from_str(text.substring_char(i + 1, q));
                    let tok = Token::StringLiteral(lit);
                    proof {
                        assert(tok@ == TokenV::StringLiteral(s.subrange(i0 + 1, q as int)));
                        assert(spec_tokens(s, i0, to as int) == cons_token(
                            tok@,
                            spec_tokens(s, q as int + 1, to as int),
                        ));
                        lemma_tokens_step(s, from as int, to as int, i0, q as int + 1, tv, tok@);
                    }
                    toks.push(tok);
                    i = q + 1;
                    proof {
                        assert(tokens_view(toks@) =~= tv.push(tokens_view(toks@).last()));
                    }
                },
            }
        } else {
            return Err(LexError::UnexpectedCharacter);
        }
    }
    proof {
        assert(spec_tokens(s, to as int, to as int) == Ok::<Seq<TokenV>, LexError>(
            Seq::<TokenV>::empty(),
        ));
        assert(tokens_view(toks@) + Seq::<TokenV>::empty() =~= tokens_view(toks@));
    }
    Ok(toks)
}

proof fn lemma_elems_view_push(s: Seq<Element>, e: Element)
    ensures
        elems_view(s.push(e)) =~= elems_view(s).push(e@),
{
    assert forall|i: int| 0 <= i < s.len() + 1 implies elems_view(s.push(e))[i] == elems_view(
        s,
    ).push(e@)[i] by {
        if i < s.len() {
            assert(s.push(e)[i] == s[i]);
        } else {
            assert(s.push(e)[i] == e);
        }
    }
}

/// Splits template text into elements: literal runs, expression spans and
/// tag spans, each span carrying its tokens and its source text.
pub fn tokenize(text: &str) -> (r: Result<Vec<Element>, LexError>)
    ensures
        match r {
            Ok(elems) => spec_elements(text@, 0) == Ok::<Seq<ElemV>, LexError>(elems_view(elems@)),
            Err(e) => spec_elements(text@, 0) == Err::<Seq<ElemV>, LexError>(e),
        },
{
    let ghost s = text@;
    let n = text.unicode_len();
    let mut elems: Vec<Element> = Vec::new();
    let mut i: usize = 0;
    proof {
        assert(elems_view(elems@) =~= Seq::<ElemV>::empty());
    }
    while i < n
        invariant
            i <= n,
            n == s.len(),
            s == text@,
            match spec_elements(s, i as int) {
                Ok(rest) => spec_elements(s, 0) == Ok::<Seq<ElemV>, LexError>(
                    elems_view(elems@) + rest,
                ),
                Err(e) => spec_elements(s, 0) == Err::<Seq<ElemV>, LexError>(e),
            },
        decreases n - i,
    {
        let ghost ev = elems_view(elems@);
        let ghost i0 = i as int;
        match find_open_exec(text, i) {
            None => {
                let raw = Element::Raw(String::from_str(text.substring_char(i, n)));
                proof {
                    let added = seq![ElemV::Raw(s.subrange(i0, n as int))];
                    assert(spec_elements(s, n as int) == Ok::<Seq<ElemV>, LexError>(
                        Seq::<ElemV>::empty(),
                    ));
                    assert(added + Seq::<ElemV>::empty() =~= added);
                    assert(spec_elements(s, i0) == cons_elems(added, spec_elements(s, n as int)));
                    lemma_elems_step(s, i0, n as int, ev, added);
                    assert(raw@ == added[0]);
                }
                let ghost before = elems@;
                elems.push(raw);
                i = n;
                proof {
                    lemma_elems_view_push(before, raw);
                    assert(elems_view(elems@) =~= ev + seq![raw@]);
                }
            },
            Some(k) => {
                let c1 = text.get_char(k + 1);
                let is_expr = c1 == '{';
                let closer = if is_expr {
                    '}'
                } else {
                    '%'
                };
                match find_pair_exec(text, k + 2, closer) {
                    None => {
                        proof {
                            assert(spec_elements(s, i0) == Err::<Seq<ElemV>, LexError>(
                                LexError::UnterminatedDelimiter,
                            ));
                        }
                        return Err(LexError::UnterminatedDelimiter);
                    },
                    Some(m) => {
                        match tokenize_span(text, k + 2, m) {
                            Err(e) => {
                                proof {
                                    assert(spec_elements(s, i0) == Err::<Seq<ElemV>, LexError>(e));
                                }
                                return Err(e);
                            },
                            Ok(toks) => {
                                let src = String::from_str(text.substring_char(k, m + 2));
                                let ghost tokv = tokens_view(toks@);
                                let el = if is_expr {
                                    Element::Expression(toks, src)
                                } else {
                                    Element::Tag(toks, src)
                                };
                                let ghost elv = el@;
                                let ghost added = if k > i {
                                    seq![ElemV::Raw(s.subrange(i0, k as int)), elv]
                                } else {
                                    seq![elv]
                                };
                                proof {
                                    let pre: Seq<ElemV> = if k > i {
                                        seq![ElemV::Raw(s.subrange(i0, k as int))]
                                    } else {
                                        Seq::<ElemV>::empty()
                                    };
                                    assert(pre.push(elv) =~= added);
                                    assert(spec_elements(s, i0) == cons_elems(
                                        added,
                                        spec_elements(s, m as int + 2),
                                    ));
                                    lemma_elems_step(s, i0, m as int + 2, ev, added);
                                }
                                if k > i {
                                    let raw = Element::Raw(
                                        String::from_str(text.substring_char(i, k)),
                                    );
                                    let ghost before = elems@;
                                    proof {
                                        assert(raw@ == added[0]);
                                    }
                                    elems.push(raw);
                                    proof {
                                        lemma_elems_view_push(before, raw);
                                    }
                                }
                                let ghost before2 = elems@;
                                elems.push(el);
                                i = m + 2;
                                proof {
                                    lemma_elems_view_push(before2, el);
                                    assert(elems_view(elems@) =~= (ev + added));
                                }
                            },
                        }
                    },
                }
            },
        }
    }
    proof {
        assert(spec_elements(s, n as int) == Ok::<Seq<ElemV>, LexError>(Seq::<ElemV>::empty()));
        assert(elems_view(elems@) + Seq::<ElemV>::empty() =~= elems_view(elems@));
    }
    Ok(elems)
}


} // verus!
