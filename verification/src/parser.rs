//! The parser: walks the element sequence in order, dispatching each tag
//! element through the block registry, collecting each block's body up to
//! its matching end tag (honoring nesting of same-named blocks), and
//! recursively compiling block bodies. The grammar is stated by spec
//! functions that the executable parser is proved to match.

use vstd::prelude::*;
use vstd::string::*;
use crate::lexer::{Element, ElemV, Token, TokenV, LexError, elems_view, tokens_view};
use crate::template::{Renderable, Template, NodeV, CondV, Condition, nodes_view, names_view};
use crate::value::ValueV;
use crate::context::str_eq;
use crate::{Block, LiquidOptions};

verus! {

broadcast use vstd::std_specs::vec::group_vec_axioms, vstd::seq::group_seq_axioms;

/// The errors compilation can signal: a tokenizer error, a tag naming no
/// registered block, an opened block with no matching end tag, malformed
/// block arguments, a malformed expression or tag span, and blocks nested
/// past the depth limit.
#[derive(Debug, PartialEq)]
pub enum ParseError {
    Lex(LexError),
    UnknownTag(String),
    UnterminatedBlock(String),
    MalformedArguments(String),
    MalformedExpression(String),
    NestingTooDeep,
}

/// The model of a parse error.
pub enum ParseErrV {
    Lex(LexError),
    UnknownTag(Seq<char>),
    UnterminatedBlock(Seq<char>),
    MalformedArguments(Seq<char>),
    MalformedExpression(Seq<char>),
    NestingTooDeep,
}

impl View for ParseError {
    type V = ParseErrV;

    open spec fn view(&self) -> ParseErrV {
        match self {
            ParseError::Lex(e) => ParseErrV::Lex(*e),
            ParseError::UnknownTag(s) => ParseErrV::UnknownTag(s@),
            ParseError::UnterminatedBlock(s) => ParseErrV::UnterminatedBlock(s@),
            ParseError::MalformedArguments(s) => ParseErrV::MalformedArguments(s@),
            ParseError::MalformedExpression(s) => ParseErrV::MalformedExpression(s@),
            ParseError::NestingTooDeep => ParseErrV::NestingTooDeep,
        }
    }
}

/// The deepest block nesting the parser accepts; deeper input is refused
/// with a nesting error rather than exhausting the call stack.
pub const MAX_NESTING_DEPTH: usize = 64;

/// The name of a tag token sequence: its leading identifier.
pub open spec fn tag_name(toks: Seq<TokenV>) -> Option<Seq<char>> {
    if toks.len() > 0 && toks[0] is Identifier {
        Some(toks[0]->Identifier_0)
    } else {
        None
    }
}

/// The tag name of an element, when it is a tag element.
pub open spec fn elem_name(e: ElemV) -> Option<Seq<char>> {
    match e {
        ElemV::Tag(toks, _) => tag_name(toks),
        _ => None,
    }
}

/// The index of the end tag matching an open block named `name`, scanning
/// `[i, end)` and tracking the nesting depth of same-named blocks.
pub open spec fn find_end(elems: Seq<ElemV>, i: int, end: int, name: Seq<char>, depth: int)
    -> Option<int>
    decreases end - i,
{
    if i >= end {
        None
    } else {
        let nm = elem_name(elems[i]);
        if nm == Some(name) {
            find_end(elems, i + 1, end, name, depth + 1)
        } else if nm == Some("end"@ + name) {
            if depth == 0 {
                Some(i)
            } else {
                find_end(elems, i + 1, end, name, depth - 1)
            }
        } else {
            find_end(elems, i + 1, end, name, depth)
        }
    }
}

pub proof fn lemma_find_end(elems: Seq<ElemV>, i: int, end: int, name: Seq<char>, depth: int)
    ensures
        match find_end(elems, i, end, name, depth) {
            Some(j) => i <= j < end,
            None => true,
        },
    decreases end - i,
{
    if i < end {
        lemma_find_end(elems, i + 1, end, name, depth + 1);
        lemma_find_end(elems, i + 1, end, name, depth - 1);
        lemma_find_end(elems, i + 1, end, name, depth);
    }
}

/// The index of the first `else` tag in `[i, end)` at nesting depth zero
/// with respect to blocks named `name`.
pub open spec fn find_else(elems: Seq<ElemV>, i: int, end: int, name: Seq<char>, depth: int)
    -> Option<int>
    decreases end - i,
{
    if i >= end {
        None
    } else {
        let nm = elem_name(elems[i]);
        if nm == Some(name) {
            find_else(elems, i + 1, end, name, depth + 1)
        } else if nm == Some("end"@ + name) {
            find_else(elems, i + 1, end, name, if depth > 0 {
                depth - 1
            } else {
                0
            })
        } else if depth == 0 && nm == Some("else"@) {
            Some(i)
        } else {
            find_else(elems, i + 1, end, name, depth)
        }
    }
}

pub proof fn lemma_find_else(elems: Seq<ElemV>, i: int, end: int, name: Seq<char>, depth: int)
    ensures
        match find_else(elems, i, end, name, depth) {
            Some(j) => i <= j < end,
            None => true,
        },
    decreases end - i,
{
    if i < end {
        lemma_find_else(elems, i + 1, end, name, depth + 1);
        lemma_find_else(elems, i + 1, end, name, if depth > 0 {
            depth - 1
        } else {
            0
        });
        lemma_find_else(elems, i + 1, end, name, depth);
    }
}

/// The source text of an element.
pub open spec fn src_of(e: ElemV) -> Seq<char> {
    match e {
        ElemV::Raw(t) => t,
        ElemV::Expression(_, t) => t,
        ElemV::Tag(_, t) => t,
    }
}

/// The concatenated source text of the elements in `[from, to)`.
pub open spec fn source_range(elems: Seq<ElemV>, from: int, to: int) -> Seq<char>
    decreases to - from,
{
    if from >= to {
        Seq::empty()
    } else {
        src_of(elems[from]) + source_range(elems, from + 1, to)
    }
}

/// The filter names of an expression token list from `i` on: a repetition
/// of a pipe followed by an identifier; anything else is malformed.
pub open spec fn filters_of(toks: Seq<TokenV>, i: int, txt: Seq<char>) -> Result<
    Seq<Seq<char>>,
    ParseErrV,
>
    decreases toks.len() - i,
{
    if i >= toks.len() {
        Ok(Seq::empty())
    } else if toks[i] is Pipe && i + 1 < toks.len() && toks[i + 1] is Identifier {
        match filters_of(toks, i + 2, txt) {
            Ok(rest) => Ok(seq![toks[i + 1]->Identifier_0] + rest),
            Err(e) => Err(e),
        }
    } else {
        Err(ParseErrV::MalformedExpression(txt))
    }
}

/// The variable-reference node of an expression span: a leading variable
/// name and an optional chain of filters.
pub open spec fn parse_output(toks: Seq<TokenV>, txt: Seq<char>) -> Result<NodeV, ParseErrV> {
    if toks.len() == 0 || !(toks[0] is Identifier) {
        Err(ParseErrV::MalformedExpression(txt))
    } else {
        match filters_of(toks, 1, txt) {
            Ok(fs) => Ok(NodeV::Output { name: toks[0]->Identifier_0, filters: fs }),
            Err(e) => Err(e),
        }
    }
}

/// The condition an `if` block's arguments denote: exactly one token, a
/// literal or a variable name; `true` and `false` read as literals.
pub open spec fn cond_of(args: Seq<TokenV>, name: Seq<char>) -> Result<CondV, ParseErrV> {
    if args.len() != 1 {
        Err(ParseErrV::MalformedArguments(name))
    } else {
        match args[0] {
            TokenV::Identifier(id) => if id == "true"@ {
                Ok(CondV::Lit(ValueV::Bool(true)))
            } else if id == "false"@ {
                Ok(CondV::Lit(ValueV::Bool(false)))
            } else {
                Ok(CondV::Var(id))
            },
            TokenV::NumberLiteral(n) => Ok(CondV::Lit(ValueV::Num(n))),
            TokenV::StringLiteral(s) => Ok(CondV::Lit(ValueV::Str(s))),
            _ => Err(ParseErrV::MalformedArguments(name)),
        }
    }
}

/// The loop-variable and array names a `for` block's arguments denote:
/// exactly an identifier, the word `in`, and an identifier.
pub open spec fn for_args(args: Seq<TokenV>, name: Seq<char>) -> Result<
    (Seq<char>, Seq<char>),
    ParseErrV,
> {
    if args.len() == 3 && args[0] is Identifier && args[1] is Identifier && args[1]->Identifier_0
        == "in"@ && args[2] is Identifier {
        Ok((args[0]->Identifier_0, args[2]->Identifier_0))
    } else {
        Err(ParseErrV::MalformedArguments(name))
    }
}

/// Prepends a node to a node-list result.
pub open spec fn cons_node(n: NodeV, r: Result<Seq<NodeV>, ParseErrV>) -> Result<
    Seq<NodeV>,
    ParseErrV,
> {
    match r {
        Ok(rest) => Ok(seq![n] + rest),
        Err(e) => Err(e),
    }
}

/// The node sequence the elements in `[i, end)` parse to under the
/// registry `reg`: a literal run becomes a text node, an expression span a
/// variable reference, and a tag element opens the registered block, whose
/// body runs to the matching end tag; a tag naming no registered block is
/// an unknown-tag error, an open block with no end tag an
/// unterminated-block error, and a block opened with no depth budget left
/// a nesting error.
pub open spec fn spec_parse(
    elems: Seq<ElemV>,
    i: int,
    end: int,
    reg: Map<Seq<char>, Block>,
    depth: nat,
) -> Result<Seq<NodeV>, ParseErrV>
    decreases end - i, 0nat,
{
    if i >= end {
        Ok(Seq::empty())
    } else {
        match elems[i] {
            ElemV::Raw(t) => cons_node(NodeV::Text(t), spec_parse(elems, i + 1, end, reg, depth)),
            ElemV::Expression(toks, txt) => match parse_output(toks, txt) {
                Err(e) => Err(e),
                Ok(node) => cons_node(node, spec_parse(elems, i + 1, end, reg, depth)),
            },
            ElemV::Tag(toks, txt) => match tag_name(toks) {
                None => Err(ParseErrV::MalformedExpression(txt)),
                Some(name) => {
                    if !reg.contains_key(name) {
                        Err(ParseErrV::UnknownTag(name))
                    } else {
                        match find_end(elems, i + 1, end, name, 0) {
                            None => Err(ParseErrV::UnterminatedBlock(name)),
                            Some(j) => {
                                proof {
                                    lemma_find_end(elems, i + 1, end, name, 0);
                                }
                                if depth == 0 {
                                    Err(ParseErrV::NestingTooDeep)
                                } else {
                                    match spec_block(
                                        reg[name],
                                        name,
                                        toks.skip(1),
                                        elems,
                                        i + 1,
                                        j,
                                        reg,
                                        (depth - 1) as nat,
                                    ) {
                                        Err(e) => Err(e),
                                        Ok(node) => cons_node(
                                            node,
                                            spec_parse(elems, j + 1, end, reg, depth),
                                        ),
                                    }
                                }
                            },
                        }
                    }
                },
            },
        }
    }
}

/// The node one block compiles to from its name, arguments and body
/// elements `[bf, bt)`: `raw` keeps its body's source text unevaluated,
/// `comment` parses its body away, `if` splits its body at a top-level
/// `else`, and `for` compiles its body as the loop body. A `for` block
/// parses its body before validating its arguments, so a failing body's
/// error takes precedence over malformed arguments.
pub open spec fn spec_block(
    kind: Block,
    name: Seq<char>,
    args: Seq<TokenV>,
    elems: Seq<ElemV>,
    bf: int,
    bt: int,
    reg: Map<Seq<char>, Block>,
    depth: nat,
) -> Result<NodeV, ParseErrV>
    decreases bt - bf, 1nat,
{
    match kind {
        Block::Raw => Ok(NodeV::RawText(source_range(elems, bf, bt))),
        Block::Comment => match spec_parse(elems, bf, bt, reg, depth) {
            Ok(_) => Ok(NodeV::Comment),
            Err(e) => Err(e),
        },
        Block::For => match spec_parse(elems, bf, bt, reg, depth) {
            Err(e) => Err(e),
            Ok(inner) => match for_args(args, name) {
                Err(e) => Err(e),
                Ok((var, arr)) => Ok(NodeV::For { var_name: var, array_id: arr, inner }),
            },
        },
        Block::If => match cond_of(args, name) {
            Err(e) => Err(e),
            Ok(cond) => match find_else(elems, bf, bt, name, 0) {
                Some(p) => {
                    proof {
                        lemma_find_else(elems, bf, bt, name, 0);
                    }
                    match spec_parse(elems, bf, p, reg, depth) {
                        Err(e) => Err(e),
                        Ok(tb) => match spec_parse(elems, p + 1, bt, reg, depth) {
                            Err(e) => Err(e),
                            Ok(eb) => Ok(
                                NodeV::If { cond, then_branch: tb, else_branch: eb },
                            ),
                        },
                    }
                },
                None => match spec_parse(elems, bf, bt, reg, depth) {
                    Err(e) => Err(e),
                    Ok(tb) => Ok(
                        NodeV::If { cond, then_branch: tb, else_branch: Seq::empty() },
                    ),
                },
            },
        },
    }
}

/// Whether an element is a tag whose name is `what`.
fn elem_name_is(e: &Element, what: &str) -> (b: bool)
    ensures
        b == (elem_name(e@) == Some(what@)),
{
    match e {
        Element::Tag(toks, _) => {
            if toks.len() > 0 {
                proof {
                    assert(tokens_view(toks@)[0] == toks@[0]@);
                }
                match &toks[0] {
                    Token::Identifier(nm) => str_eq(nm.as_str(), what),
                    _ => false,
                }
            } else {
                false
            }
        },
        _ => false,
    }
}

/// Finds the end tag matching an open block named `name` in `[from, to)`.
fn find_end_exec(elems: &Vec<Element>, from: usize, to: usize, name: &str) -> (r: Option<usize>)
    requires
        from <= to,
        to <= elems@.len(),
    ensures
        match r {
            Some(j) => find_end(elems_view(elems@), from as int, to as int, name@, 0) == Some(
                j as int,
            ) && from <= j < to,
            None => find_end(elems_view(elems@), from as int, to as int, name@, 0) is None,
        },
{
    let ghost ev = elems_view(elems@);
    let end_name = String::from_str("end").concat(name);
    proof {
        assert(end_name@ == "end"@ + name@);
    }
    let mut k = from;
    let mut depth: usize = 0;
    while k < to
        invariant
            from <= k <= to,
            to <= elems@.len(),
            ev == elems_view(elems@),
            depth <= k,
            end_name@ == "end"@ + name@,
            find_end(ev, from as int, to as int, name@, 0) == find_end(
                ev,
                k as int,
                to as int,
                name@,
                depth as int,
            ),
        decreases to - k,
    {
        proof {
            assert(ev[k as int] == elems@[k as int]@);
        }
        let opens = elem_name_is(&elems[k], name);
        let closes = elem_name_is(&elems[k], end_name.as_str());
        if opens {
            depth = depth + 1;
        } else if closes {
            if depth == 0 {
                return Some(k);
            }
            depth = depth - 1;
        }
        k = k + 1;
    }
    None
}

/// Finds the first top-level `else` tag in `[from, to)` with respect to
/// blocks named `name`.
fn find_else_exec(elems: &Vec<Element>, from: usize, to: usize, name: &str) -> (r: Option<usize>)
    requires
        from <= to,
        to <= elems@.len(),
    ensures
        match r {
            Some(j) => find_else(elems_view(elems@), from as int, to as int, name@, 0) == Some(
                j as int,
            ) && from <= j < to,
            None => find_else(elems_view(elems@), from as int, to as int, name@, 0) is None,
        },
{
    let ghost ev = elems_view(elems@);
    let end_name = String::from_str("end").concat(name);
    proof {
        assert(end_name@ == "end"@ + name@);
    }
    let mut k = from;
    let mut depth: usize = 0;
    while k < to
        invariant
            from <= k <= to,
            to <= elems@.len(),
            ev == elems_view(elems@),
            depth <= k,
            end_name@ == "end"@ + name@,
            find_else(ev, from as int, to as int, name@, 0) == find_else(
                ev,
                k as int,
                to as int,
                name@,
                depth as int,
            ),
        decreases to - k,
    {
        proof {
            assert(ev[k as int] == elems@[k as int]@);
        }
        let opens = elem_name_is(&elems[k], name);
        let closes = elem_name_is(&elems[k], end_name.as_str());
        if opens {
            depth = depth + 1;
        } else if closes {
            if depth > 0 {
                depth = depth - 1;
            }
        } else if depth == 0 && elem_name_is(&elems[k], "else") {
            return Some(k);
        }
        k = k + 1;
    }
    None
}

/// The source text of one element.
fn src_str(e: &Element) -> (r: &String)
    ensures
        r@ == src_of(e@),
{
    match e {
        Element::Raw(s) => s,
        Element::Expression(_, t) => t,
        Element::Tag(_, t) => t,
    }
}

/// Concatenates the source text of the elements in `[from, to)`.
fn build_raw(elems: &Vec<Element>, from: usize, to: usize) -> (r: String)
    requires
        from <= to,
        to <= elems@.len(),
    ensures
        r@ == source_range(elems_view(elems@), from as int, to as int),
{
    let ghost ev = elems_view(elems@);
    let mut out = String::new();
    let mut k = from;
    while k < to
        invariant
            from <= k <= to,
            to <= elems@.len(),
            ev == elems_view(elems@),
            source_range(ev, from as int, to as int) == out@ + source_range(
                ev,
                k as int,
                to as int,
            ),
        decreases to - k,
    {
        proof {
            assert(ev[k as int] == elems@[k as int]@);
        }
        let ghost before = out@;
        out.append(src_str(&elems[k]).as_str());
        k = k + 1;
        proof {
            assert(before + (src_of(ev[k as int - 1]) + source_range(ev, k as int, to as int))
                =~= out@ + source_range(ev, k as int, to as int));
        }
    }
    proof {
        assert(out@ + Seq::<char>::empty() =~= out@);
    }
    out
}

/// Parses the filter chain and name of an expression span.
fn build_output(toks: &Vec<Token>, txt: &String) -> (r: Result<Renderable, ParseError>)
    ensures
        match r {
            Ok(n) => parse_output(tokens_view(toks@), txt@) == Ok::<NodeV, ParseErrV>(n@),
            Err(e) => parse_output(tokens_view(toks@), txt@) == Err::<NodeV, ParseErrV>(e@),
        },
{
    let ghost tv = tokens_view(toks@);
    if toks.len() == 0 {
        return Err(ParseError::MalformedExpression(txt.clone()));
    }
    proof {
        assert(tv[0] == toks@[0]@);
    }
    let name = match &toks[0] {
        Token::Identifier(nm) => nm.clone(),
        _ => {
            return Err(ParseError::MalformedExpression(txt.clone()));
        },
    };
    let mut filters: Vec<String> = Vec::new();
    let mut i: usize = 1;
    proof {
        assert(names_view(filters@) =~= Seq::<Seq<char>>::empty());
    }
    while i < toks.len()
        invariant
            1 <= i,
            tv == tokens_view(toks@),
            tv.len() == toks@.len(),
            match filters_of(tv, i as int, txt@) {
                Ok(rest) => filters_of(tv, 1, txt@) == Ok::<Seq<Seq<char>>, ParseErrV>(
                    names_view(filters@) + rest,
                ),
                Err(e) => filters_of(tv, 1, txt@) == Err::<Seq<Seq<char>>, ParseErrV>(e),
            },
        decreases toks@.len() - i,
    {
        proof {
            assert(tv[i as int] == toks@[i as int]@);
        }
        let is_pipe = matches!(&toks[i], Token::Pipe);
        if !is_pipe || i + 1 >= toks.len() {
            return Err(ParseError::MalformedExpression(txt.clone()));
        }
        proof {
            assert(tv[i as int + 1] == toks@[i as int + 1]@);
        }
        match &toks[i + 1] {
            Token::Identifier(f) => {
                let ghost before = filters@;
                filters.push(f.clone());
                i = i + 2;
                proof {
                    assert forall|x: int| 0 <= x < before.len() + 1 implies names_view(
                        filters@,
                    )[x] == names_view(before).push(f@)[x] by {
                        if x < before.len() {
                            assert(filters@[x] == before[x]);
                        } else {
                            assert(filters@[x] == f);
                        }
                    }
                    assert(names_view(filters@) =~= names_view(before).push(f@));
                    let rr = filters_of(tv, i as int, txt@);
                    if rr is Ok {
                        assert(names_view(before) + (seq![f@] + rr->Ok_0) =~= names_view(filters@)
                            + rr->Ok_0);
                    }
                }
            },
            _ => {
                return Err(ParseError::MalformedExpression(txt.clone()));
            },
        }
    }
    proof {
        assert(filters_of(tv, toks@.len() as int, txt@) == Ok::<Seq<Seq<char>>, ParseErrV>(
            Seq::<Seq<char>>::empty(),
        ));
        assert(names_view(filters@) + Seq::<Seq<char>>::empty() =~= names_view(filters@));
    }
    Ok(Renderable::Output { name, filters })
}

/// Parses an `if` block's argument tokens into a condition.
fn build_cond(args: &Vec<Token>, args_from: usize, name: &str) -> (r: Result<
    Condition,
    ParseError,
>)
    requires
        args_from <= args@.len(),
    ensures
        match r {
            Ok(c) => cond_of(tokens_view(args@).skip(args_from as int), name@) == Ok::<
                CondV,
                ParseErrV,
            >(c@),
            Err(e) => cond_of(tokens_view(args@).skip(args_from as int), name@) == Err::<
                CondV,
                ParseErrV,
            >(e@),
        },
{
    let ghost av = tokens_view(args@).skip(args_from as int);
    if args.len() - args_from != 1 {
        return Err(ParseError::MalformedArguments(String::from_str(name)));
    }
    proof {
        assert(av[0] == args@[args_from as int]@);
    }
    match &args[args_from] {
        Token::Identifier(id) => {
            if str_eq(id.as_str(), "true") {
                Ok(Condition::Lit(crate::value::Value::Bool(true)))
            } else if str_eq(id.as_str(), "false") {
                Ok(Condition::Lit(crate::value::Value::Bool(false)))
            } else {
                Ok(Condition::Var(id.clone()))
            }
        },
        Token::NumberLiteral(n) => Ok(Condition::Lit(crate::value::Value::Num(*n))),
        Token::StringLiteral(s) => Ok(Condition::Lit(crate::value::Value::Str(s.clone()))),
        _ => Err(ParseError::MalformedArguments(String::from_str(name))),
    }
}

/// Compiles one block from its kind, name, argument tokens and body
/// elements `[bf, bt)`, with `depth` the remaining nesting budget for the
/// body.
pub fn build_block(
    kind: Block,
    name: &str,
    args: &Vec<Token>,
    args_from: usize,
    elems: &Vec<Element>,
    bf: usize,
    bt: usize,
    options: &LiquidOptions,
    depth: usize,
) -> (r: Result<Renderable, ParseError>)
    requires
        args_from <= args@.len(),
        bf <= bt,
        bt <= elems@.len(),
    ensures
        match r {
            Ok(n) => spec_block(
                kind,
                name@,
                tokens_view(args@).skip(args_from as int),
                elems_view(elems@),
                bf as int,
                bt as int,
                options@,
                depth as nat,
            ) == Ok::<NodeV, ParseErrV>(n@),
            Err(e) => spec_block(
                kind,
                name@,
                tokens_view(args@).skip(args_from as int),
                elems_view(elems@),
                bf as int,
                bt as int,
                options@,
                depth as nat,
            ) == Err::<NodeV, ParseErrV>(e@),
        },
    decreases bt - bf, 1nat,
{
    let ghost ev = elems_view(elems@);
    let ghost av = tokens_view(args@).skip(args_from as int);
    match kind {
        Block::Raw => {
            let txt = build_raw(elems, bf, bt);
            Ok(Renderable::RawText(txt))
        },
        Block::Comment => {
            match parse_range(elems, bf, bt, options, depth) {
                Ok(_) => Ok(Renderable::Comment),
                Err(e) => Err(e),
            }
        },
        Block::For => {
            let inner = match parse_range(elems, bf, bt, options, depth) {
                Ok(inner) => inner,
                Err(e) => {
                    return Err(e);
                },
            };
            if args.len() - args_from != 3 {
                return Err(ParseError::MalformedArguments(String::from_str(name)));
            }
            proof {
                assert(av[0] == args@[args_from as int]@);
                assert(av[1] == args@[args_from as int + 1]@);
                assert(av[2] == args@[args_from as int + 2]@);
            }
            let var_name = match &args[args_from] {
                Token::Identifier(v) => v.clone(),
                _ => {
                    return Err(ParseError::MalformedArguments(String::from_str(name)));
                },
            };
            match &args[args_from + 1] {
                Token::Identifier(w) => {
                    if !str_eq(w.as_str(), "in") {
                        return Err(ParseError::MalformedArguments(String::from_str(name)));
                    }
                },
                _ => {
                    return Err(ParseError::MalformedArguments(String::from_str(name)));
                },
            }
            let array_id = match &args[args_from + 2] {
                Token::Identifier(a) => a.clone(),
                _ => {
                    return Err(ParseError::MalformedArguments(String::from_str(name)));
                },
            };
            Ok(Renderable::For { var_name, array_id, inner: Template::new(inner) })
        },
        Block::If => {
            let cond = match build_cond(args, args_from, name) {
                Ok(c) => c,
                Err(e) => {
                    return Err(e);
                },
            };
            match find_else_exec(elems, bf, bt, name) {
                Some(p) => {
                    let tb = match parse_range(elems, bf, p, options, depth) {
                        Ok(tb) => tb,
                        Err(e) => {
                            return Err(e);
                        },
                    };
                    match parse_range(elems, p + 1, bt, options, depth) {
                        Ok(eb) => Ok(
                            Renderable::If {
                                cond,
                                then_branch: Template::new(tb),
                                else_branch: Template::new(eb),
                            },
                        ),
                        Err(e) => Err(e),
                    }
                },
                None => {
                    match parse_range(elems, bf, bt, options, depth) {
                        Ok(tb) => {
                            proof {
                                assert(nodes_view(Seq::<Renderable>::empty())
                                    =~= Seq::<NodeV>::empty());
                            }
                            Ok(
                                Renderable::If {
                                    cond,
                                    then_branch: Template::new(tb),
                                    else_branch: Template::new(Vec::new()),
                                },
                            )
                        },
                        Err(e) => Err(e),
                    }
                },
            }
        },
    }
}

proof fn lemma_parse_step(
    ev: Seq<ElemV>,
    from: int,
    to: int,
    i: int,
    j: int,
    reg: Map<Seq<char>, Block>,
    depth: nat,
    nv: Seq<NodeV>,
    node: NodeV,
)
    requires
        spec_parse(ev, i, to, reg, depth) == cons_node(node, spec_parse(ev, j, to, reg, depth)),
        match spec_parse(ev, i, to, reg, depth) {
            Ok(r0) => spec_parse(ev, from, to, reg, depth) == Ok::<Seq<NodeV>, ParseErrV>(
                nv + r0,
            ),
            Err(e0) => spec_parse(ev, from, to, reg, depth) == Err::<Seq<NodeV>, ParseErrV>(e0),
        },
    ensures
        match spec_parse(ev, j, to, reg, depth) {
            Ok(rest) => spec_parse(ev, from, to, reg, depth) == Ok::<Seq<NodeV>, ParseErrV>(
                nv.push(node) + rest,
            ),
            Err(e) => spec_parse(ev, from, to, reg, depth) == Err::<Seq<NodeV>, ParseErrV>(e),
        },
{
    match spec_parse(ev, j, to, reg, depth) {
        Ok(rest) => {
            assert(nv + (seq![node] + rest) =~= nv.push(node) + rest);
        },
        Err(e) => {},
    }
}

/// Parses the elements in `[from, to)` into a node sequence under the
/// registry held by `options`, with `depth` the remaining nesting budget.
pub fn parse_range(
    elems: &Vec<Element>,
    from: usize,
    to: usize,
    options: &LiquidOptions,
    depth: usize,
) -> (r: Result<Vec<Renderable>, ParseError>)
    requires
        from <= to,
        to <= elems@.len(),
    ensures
        match r {
            Ok(nodes) => spec_parse(
                elems_view(elems@),
                from as int,
                to as int,
                options@,
                depth as nat,
            ) == Ok::<Seq<NodeV>, ParseErrV>(nodes_view(nodes@)),
            Err(e) => spec_parse(
                elems_view(elems@),
                from as int,
                to as int,
                options@,
                depth as nat,
            ) == Err::<Seq<NodeV>, ParseErrV>(e@),
        },
    decreases to - from, 0nat,
{
    let ghost ev = elems_view(elems@);
    let ghost reg = options@;
    let mut nodes: Vec<Renderable> = Vec::new();
    let mut i = from;
    proof {
        assert(nodes_view(nodes@) =~= Seq::<NodeV>::empty());
    }
    while i < to
        invariant
            from <= i <= to,
            to <= elems@.len(),
            ev == elems_view(elems@),
            reg == options@,
            match spec_parse(ev, i as int, to as int, reg, depth as nat) {
                Ok(rest) => spec_parse(ev, from as int, to as int, reg, depth as nat) == Ok::<
                    Seq<NodeV>,
                    ParseErrV,
                >(nodes_view(nodes@) + rest),
                Err(e) => spec_parse(ev, from as int, to as int, reg, depth as nat) == Err::<
                    Seq<NodeV>,
                    ParseErrV,
                >(e),
            },
        decreases to - i,
    {
        let ghost nv = nodes_view(nodes@);
        let ghost i0 = i as int;
        proof {
            assert(ev[i0] == elems@[i0]@);
        }
        match &elems[i] {
            Element::Raw(s) => {
                let node = Renderable::Text(s.clone());
                proof {
                    assert(spec_parse(ev, i0, to as int, reg, depth as nat) == cons_node(
                        node@,
                        spec_parse(ev, i0 + 1, to as int, reg, depth as nat),
                    ));
                    lemma_parse_step(
                        ev,
                        from as int,
                        to as int,
                        i0,
                        i0 + 1,
                        reg,
                        depth as nat,
                        nv,
                        node@,
                    );
                }
                let ghost before = nodes@;
                nodes.push(node);
                i = i + 1;
                proof {
                    assert(nodes@.drop_last() =~= before);
                    assert(nodes_view(nodes@) =~= nv.push(nodes@.last()@));
                }
            },
            Element::Expression(toks, txt) => {
                match build_output(toks, txt) {
                    Err(e) => {
                        return Err(e);
                    },
                    Ok(node) => {
                        proof {
                            assert(spec_parse(ev, i0, to as int, reg, depth as nat) == cons_node(
                                node@,
                                spec_parse(ev, i0 + 1, to as int, reg, depth as nat),
                            ));
                            lemma_parse_step(
                                ev,
                                from as int,
                                to as int,
                                i0,
                                i0 + 1,
                                reg,
                                depth as nat,
                                nv,
                                node@,
                            );
                        }
                        let ghost before = nodes@;
                        nodes.push(node);
                        i = i + 1;
                        proof {
                            assert(nodes@.drop_last() =~= before);
                            assert(nodes_view(nodes@) =~= nv.push(nodes@.last()@));
                        }
                    },
                }
            },
            Element::Tag(toks, txt) => {
                if toks.len() == 0 {
                    return Err(ParseError::MalformedExpression(txt.clone()));
                }
                proof {
                    assert(tokens_view(toks@)[0] == toks@[0]@);
                }
                let nm = match &toks[0] {
                    Token::Identifier(nm) => nm,
                    _ => {
                        return Err(ParseError::MalformedExpression(txt.clone()));
                    },
                };
                let kind = match options.get_block(nm.as_str()) {
                    None => {
                        return Err(ParseError::UnknownTag(nm.clone()));
                    },
                    Some(kind) => kind,
                };
                match find_end_exec(elems, i + 1, to, nm.as_str()) {
                    None => {
                        return Err(ParseError::UnterminatedBlock(nm.clone()));
                    },
                    Some(j) => {
                        if depth == 0 {
                            proof {
                                assert(spec_parse(ev, i0, to as int, reg, depth as nat) == Err::<
                                    Seq<NodeV>,
                                    ParseErrV,
                                >(ParseErrV::NestingTooDeep));
                            }
                            return Err(ParseError::NestingTooDeep);
                        }
                        match build_block(
                            kind,
                            nm.as_str(),
                            toks,
                            1,
                            elems,
                            i + 1,
                            j,
                            options,
                            depth - 1,
                        ) {
                            Err(e) => {
                                return Err(e);
                            },
                            Ok(node) => {
                                proof {
                                    assert(spec_parse(ev, i0, to as int, reg, depth as nat)
                                        == cons_node(
                                        node@,
                                        spec_parse(ev, j as int + 1, to as int, reg, depth as nat),
                                    ));
                                    lemma_parse_step(
                                        ev,
                                        from as int,
                                        to as int,
                                        i0,
                                        j as int + 1,
                                        reg,
                                        depth as nat,
                                        nv,
                                        node@,
                                    );
                                }
                                let ghost before = nodes@;
                                nodes.push(node);
                                i = j + 1;
                                proof {
                                    assert(nodes@.drop_last() =~= before);
                                    assert(nodes_view(nodes@) =~= nv.push(nodes@.last()@));
                                }
                            },
                        }
                    },
                }
            },
        }
    }
    proof {
        assert(spec_parse(ev, to as int, to as int, reg, depth as nat) == Ok::<
            Seq<NodeV>,
            ParseErrV,
        >(Seq::<NodeV>::empty()));
        assert(nodes_view(nodes@) + Seq::<NodeV>::empty() =~= nodes_view(nodes@));
    }
    Ok(nodes)
}

/// The `if` block: a condition, a body, and an optional `else` branch.
pub struct IfBlock;

/// The `for` block: a loop variable, a source array, and a loop body.
pub struct ForBlock;

/// The `raw` block: its body is kept as unevaluated source text.
pub struct RawBlock;

/// The `comment` block: its body is parsed away and discarded.
pub struct CommentBlock;

impl ForBlock {
    /// Compiles a `for` block from its argument tokens and body elements.
    pub fn initialize(
        &self,
        tag_name: &str,
        arguments: &Vec<Token>,
        tokens: Vec<Element>,
        options: &LiquidOptions,
    ) -> (r: Result<Renderable, ParseError>)
        ensures
            match r {
                Ok(n) => spec_block(
                    Block::For,
                    tag_name@,
                    tokens_view(arguments@),
                    elems_view(tokens@),
                    0,
                    tokens@.len() as int,
                    options@,
                    MAX_NESTING_DEPTH as nat,
                ) == Ok::<NodeV, ParseErrV>(n@),
                Err(e) => spec_block(
                    Block::For,
                    tag_name@,
                    tokens_view(arguments@),
                    elems_view(tokens@),
                    0,
                    tokens@.len() as int,
                    options@,
                    MAX_NESTING_DEPTH as nat,
                ) == Err::<NodeV, ParseErrV>(e@),
            },
    {
        proof {
            assert(tokens_view(arguments@).skip(0) =~= tokens_view(arguments@));
        }
        build_block(
            Block::For,
            tag_name,
            arguments,
            0,
            &tokens,
            0,
            tokens.len(),
            options,
            MAX_NESTING_DEPTH,
        )
    }
}

impl IfBlock {
    /// Compiles an `if` block from its argument tokens and body elements.
    pub fn initialize(
        &self,
        tag_name: &str,
        arguments: &Vec<Token>,
        tokens: Vec<Element>,
        options: &LiquidOptions,
    ) -> (r: Result<Renderable, ParseError>)
        ensures
            match r {
                Ok(n) => spec_block(
                    Block::If,
                    tag_name@,
                    tokens_view(arguments@),
                    elems_view(tokens@),
                    0,
                    tokens@.len() as int,
                    options@,
                    MAX_NESTING_DEPTH as nat,
                ) == Ok::<NodeV, ParseErrV>(n@),
                Err(e) => spec_block(
                    Block::If,
                    tag_name@,
                    tokens_view(arguments@),
                    elems_view(tokens@),
                    0,
                    tokens@.len() as int,
                    options@,
                    MAX_NESTING_DEPTH as nat,
                ) == Err::<NodeV, ParseErrV>(e@),
            },
    {
        proof {
            assert(tokens_view(arguments@).skip(0) =~= tokens_view(arguments@));
        }
        build_block(
            Block::If,
            tag_name,
            arguments,
            0,
            &tokens,
            0,
            tokens.len(),
            options,
            MAX_NESTING_DEPTH,
        )
    }
}

impl RawBlock {
    /// Compiles a `raw` block from its body elements.
    pub fn initialize(
        &self,
        tag_name: &str,
        arguments: &Vec<Token>,
        tokens: Vec<Element>,
        options: &LiquidOptions,
    ) -> (r: Result<Renderable, ParseError>)
        ensures
            match r {
                Ok(n) => spec_block(
                    Block::Raw,
                    tag_name@,
                    tokens_view(arguments@),
                    elems_view(tokens@),
                    0,
                    tokens@.len() as int,
                    options@,
                    MAX_NESTING_DEPTH as nat,
                ) == Ok::<NodeV, ParseErrV>(n@),
                Err(e) => spec_block(
                    Block::Raw,
                    tag_name@,
                    tokens_view(arguments@),
                    elems_view(tokens@),
                    0,
                    tokens@.len() as int,
                    options@,
                    MAX_NESTING_DEPTH as nat,
                ) == Err::<NodeV, ParseErrV>(e@),
            },
    {
        proof {
            assert(tokens_view(arguments@).skip(0) =~= tokens_view(arguments@));
        }
        build_block(
            Block::Raw,
            tag_name,
            arguments,
            0,
            &tokens,
            0,
            tokens.len(),
            options,
            MAX_NESTING_DEPTH,
        )
    }
}

impl CommentBlock {
    /// Compiles a `comment` block from its body elements.
    pub fn initialize(
        &self,
        tag_name: &str,
        arguments: &Vec<Token>,
        tokens: Vec<Element>,
        options: &LiquidOptions,
    ) -> (r: Result<Renderable, ParseError>)
        ensures
            match r {
                Ok(n) => spec_block(
                    Block::Comment,
                    tag_name@,
                    tokens_view(arguments@),
                    elems_view(tokens@),
                    0,
                    tokens@.len() as int,
                    options@,
                    MAX_NESTING_DEPTH as nat,
                ) == Ok::<NodeV, ParseErrV>(n@),
                Err(e) => spec_block(
                    Block::Comment,
                    tag_name@,
                    tokens_view(arguments@),
                    elems_view(tokens@),
                    0,
                    tokens@.len() as int,
                    options@,
                    MAX_NESTING_DEPTH as nat,
                ) == Err::<NodeV, ParseErrV>(e@),
            },
    {
        proof {
            assert(tokens_view(arguments@).skip(0) =~= tokens_view(arguments@));
        }
        build_block(
            Block::Comment,
            tag_name,
            arguments,
            0,
            &tokens,
            0,
            tokens.len(),
            options,
            MAX_NESTING_DEPTH,
        )
    }
}

} // verus!
