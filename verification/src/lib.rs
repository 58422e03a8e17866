//! A small template language: source text holding literal runs, variable
//! interpolations (`{{ name }}`) and control tags (`{% if %}`, `{% for %}`,
//! `{% comment %}`, `{% raw %}`) is compiled into an immutable tree of
//! renderable nodes, which is then evaluated against a mutable variable
//! context to produce output text.

use vstd::prelude::*;

pub mod context;
pub mod laws;
pub mod lexer;
pub mod parser;
pub mod template;
pub mod value;

pub use crate::template::Template;
pub use crate::value::Value;
pub use crate::context::Context;

use crate::lexer::{tokenize, spec_elements};
use crate::parser::{parse_range, spec_parse, ParseError, ParseErrV, MAX_NESTING_DEPTH};
use crate::template::NodeV;
use crate::context::str_eq;

verus! {

broadcast use vstd::std_specs::vec::group_vec_axioms, vstd::seq::group_seq_axioms;

/// The error-reporting mode of a registry. Currently carried but not acted
/// on: every error is reported the same way whatever the mode.
#[derive(Clone, Copy, Debug)]
pub enum ErrorMode {
    Strict,
    Warn,
    Lax,
}

impl Default for ErrorMode {
    fn default() -> (r: ErrorMode)
        ensures
            r is Warn,
    {
        ErrorMode::Warn
    }
}

/// The kind of block a name is registered to: a conditional, a loop, a
/// discarded comment, or a raw span kept unevaluated.
#[derive(Clone, Copy, Debug, PartialEq, Eq)]
pub enum Block {
    If,
    For,
    Comment,
    Raw,
}

/// The registry consulted while parsing: a mapping from tag name to block
/// kind, in which the latest registration for a name wins, plus the
/// error-reporting mode.
#[derive(Debug)]
pub struct LiquidOptions {
    pub blocks: Vec<(String, Block)>,
    pub error_mode: ErrorMode,
}

/// The map a block association list denotes.
pub open spec fn blocks_map(s: Seq<(String, Block)>) -> Map<Seq<char>, Block>
    decreases s,
{
    if s.len() == 0 {
        Map::empty()
    } else {
        blocks_map(s.drop_last()).insert(s.last().0@, s.last().1)
    }
}

impl View for LiquidOptions {
    type V = Map<Seq<char>, Block>;

    open spec fn view(&self) -> Map<Seq<char>, Block> {
        blocks_map(self.blocks@)
    }
}

impl LiquidOptions {
    /// A registry with nothing registered.
    pub fn new() -> (r: LiquidOptions)
        ensures
            r@ == Map::<Seq<char>, Block>::empty(),
            r.error_mode is Warn,
    {
        LiquidOptions { blocks: Vec::new(), error_mode: ErrorMode::Warn }
    }

    /// Registers `kind` under `name`, overriding any earlier registration.
    pub fn register_block(&mut self, name: &str, kind: Block)
        ensures
            final(self)@ == old(self)@.insert(name@, kind),
            final(self).error_mode == old(self).error_mode,
    {
        let key = String::from_str(name);
        let ghost before = self.blocks@;
        self.blocks.push((key, kind));
        proof {
            assert(self.blocks@.drop_last() =~= before);
        }
    }

    /// The block kind registered under `name`, when there is one.
    pub fn get_block(&self, name: &str) -> (r: Option<Block>)
        ensures
            match r {
                Some(b) => self@.contains_key(name@) && b == self@[name@],
                None => !self@.contains_key(name@),
            },
    {
        let mut i: usize = self.blocks.len();
        proof {
            assert(self.blocks@.take(i as int) =~= self.blocks@);
        }
        while i > 0
            invariant
                i <= self.blocks@.len(),
                blocks_map(self.blocks@).contains_key(name@) == blocks_map(
                    self.blocks@.take(i as int),
                ).contains_key(name@),
                blocks_map(self.blocks@).contains_key(name@) ==> blocks_map(
                    self.blocks@,
                )[name@] == blocks_map(self.blocks@.take(i as int))[name@],
            decreases i,
        {
            i = i - 1;
            proof {
                assert(self.blocks@.take(i as int + 1).drop_last() =~= self.blocks@.take(i as int));
                assert(self.blocks@.take(i as int + 1).last() == self.blocks@[i as int]);
            }
            if str_eq(self.blocks[i].0.as_str(), name) {
                return Some(self.blocks[i].1);
            }
        }
        proof {
            assert(self.blocks@.take(0) =~= Seq::<(String, Block)>::empty());
        }
        None
    }
}

impl LiquidOptions {
    /// Registers `kind` under `name` only where the name has no
    /// registration yet, leaving any earlier registration in force.
    pub fn register_default(&mut self, name: &str, kind: Block)
        ensures
            final(self)@ == crate::with_builtin(old(self)@, name@, kind),
            final(self).error_mode == old(self).error_mode,
    {
        match self.get_block(name) {
            Some(_) => {},
            None => {
                self.register_block(name, kind);
            },
        }
    }
}

impl Default for LiquidOptions {
    fn default() -> (r: LiquidOptions)
        ensures
            r@ == Map::<Seq<char>, Block>::empty(),
            r.error_mode is Warn,
    {
        LiquidOptions::new()
    }
}

/// What compiling template text yields: the element sequence of the text,
/// parsed under the registry with the full nesting budget; a tokenizer
/// error is reported as such.
pub open spec fn spec_compile(s: Seq<char>, reg: Map<Seq<char>, Block>) -> Result<
    Seq<NodeV>,
    ParseErrV,
> {
    match spec_elements(s, 0) {
        Err(le) => Err(ParseErrV::Lex(le)),
        Ok(evs) => spec_parse(evs, 0, evs.len() as int, reg, MAX_NESTING_DEPTH as nat),
    }
}

/// A registry with `kind` installed under `name` only where the name has
/// no registration yet.
pub open spec fn with_builtin(
    reg: Map<Seq<char>, Block>,
    name: Seq<char>,
    kind: Block,
) -> Map<Seq<char>, Block> {
    if reg.contains_key(name) {
        reg
    } else {
        reg.insert(name, kind)
    }
}

/// Compiles template text into a template, after installing each of the
/// four built-in blocks (`raw`, `if`, `for`, `comment`) into the registry
/// only where its name is not yet registered, so an earlier registration
/// for a built-in name stays in force. The result is exactly what
/// `spec_compile` states for the text under the final registry, with
/// nesting bounded by the depth limit.
pub fn parse(text: &str, options: &mut LiquidOptions) -> (r: Result<Template, ParseError>)
    ensures
        final(options)@ == with_builtin(
            with_builtin(
                with_builtin(with_builtin(old(options)@, "raw"@, Block::Raw), "if"@, Block::If),
                "for"@,
                Block::For,
            ),
            "comment"@,
            Block::Comment,
        ),
        final(options).error_mode == old(options).error_mode,
        match r {
            Ok(t) => spec_compile(text@, final(options)@) == Ok::<Seq<NodeV>, ParseErrV>(t@),
            Err(e) => spec_compile(text@, final(options)@) == Err::<Seq<NodeV>, ParseErrV>(e@),
        },
{
    options.register_default("raw", Block::Raw);
    options.register_default("if", Block::If);
    options.register_default("for", Block::For);
    options.register_default("comment", Block::Comment);
    match tokenize(text) {
        Err(le) => Err(ParseError::Lex(le)),
        Ok(elems) => {
            match parse_range(&elems, 0, elems.len(), options, MAX_NESTING_DEPTH) {
                Ok(nodes) => Ok(Template::new(nodes)),
                Err(e) => Err(e),
            }
        },
    }
}

} // verus!
