//! General properties of the library, stated and proved over the spec
//! functions that the executable pipeline is verified against: compiling
//! text with no delimiters is the identity, a conditional renders exactly
//! one branch by the truthiness of its condition, a loop over an empty
//! array renders empty text, and rendering is a function of the template's
//! and context's models.

use vstd::prelude::*;
use crate::lexer::{open_at, find_open_from, spec_elements, ElemV};
use crate::parser::{spec_parse, cons_node, MAX_NESTING_DEPTH};
use crate::template::{NodeV, CondV, sp_render_template, sp_render_node, sp_render_list, sp_cond};
use crate::value::{ValueV, RenderErr, truthy};
use crate::context::{CtxV, Filter};
use crate::{spec_compile, Block};

verus! {

proof fn lemma_no_open(text: Seq<char>, i: int)
    requires
        forall|k: int| !open_at(text, k),
    ensures
        find_open_from(text, i) is None,
    decreases text.len() - i,
{
    if i < text.len() {
        lemma_no_open(text, i + 1);
    }
}

/// Rendering a sequence holding one text node yields that text unchanged,
/// and only registers the built-in filter.
proof fn lemma_render_single_text(t: Seq<char>, c: CtxV)
    ensures
        sp_render_template(seq![NodeV::Text(t)], c).0 == Ok::<Seq<char>, RenderErr>(t),
{
    let c1 = CtxV { vars: c.vars, filters: c.filters.insert("size"@, Filter::Size) };
    let ns = seq![NodeV::Text(t)];
    assert(sp_render_node(ns[0], c1) == (Ok::<Seq<char>, RenderErr>(t), c1));
    assert(ns.drop_first() =~= Seq::<NodeV>::empty());
    assert(sp_render_list(ns.drop_first(), c1) == (
        Ok::<Seq<char>, RenderErr>(Seq::empty()),
        c1,
    ));
    assert(t + Seq::<char>::empty() =~= t);
}

/// Identity: a template whose text holds no opening delimiter (so no tag
/// and no expression) compiles, and renders to its source text verbatim,
/// under every registry and every context.
pub proof fn lemma_literal_identity(text: Seq<char>, reg: Map<Seq<char>, Block>, c: CtxV)
    requires
        forall|k: int| !open_at(text, k),
    ensures
        spec_compile(text, reg) is Ok,
        sp_render_template(spec_compile(text, reg)->Ok_0, c).0 == Ok::<Seq<char>, RenderErr>(text),
{
    lemma_no_open(text, 0);
    if text.len() == 0 {
        assert(spec_elements(text, 0) == Ok::<Seq<ElemV>, crate::lexer::LexError>(
            Seq::<ElemV>::empty(),
        ));
        assert(spec_compile(text, reg) == Ok::<Seq<NodeV>, crate::parser::ParseErrV>(
            Seq::<NodeV>::empty(),
        ));
        let c1 = CtxV { vars: c.vars, filters: c.filters.insert("size"@, Filter::Size) };
        assert(sp_render_list(Seq::<NodeV>::empty(), c1) == (
            Ok::<Seq<char>, RenderErr>(Seq::empty()),
            c1,
        ));
        assert(text =~= Seq::<char>::empty());
    } else {
        let evs = seq![ElemV::Raw(text.subrange(0, text.len() as int))];
        assert(text.subrange(0, text.len() as int) =~= text);
        assert(spec_elements(text, 0) == Ok::<Seq<ElemV>, crate::lexer::LexError>(evs));
        let d = MAX_NESTING_DEPTH as nat;
        assert(spec_parse(evs, 1, 1, reg, d) == Ok::<Seq<NodeV>, crate::parser::ParseErrV>(
            Seq::<NodeV>::empty(),
        ));
        assert(spec_parse(evs, 0, 1, reg, d) == cons_node(
            NodeV::Text(text),
            spec_parse(evs, 1, 1, reg, d),
        ));
        assert(seq![NodeV::Text(text)] + Seq::<NodeV>::empty() =~= seq![NodeV::Text(text)]);
        assert(spec_compile(text, reg) == Ok::<Seq<NodeV>, crate::parser::ParseErrV>(
            seq![NodeV::Text(text)],
        ));
        lemma_render_single_text(text, c);
    }
}

/// A conditional whose branches are plain text renders its first branch
/// exactly when its condition variable is bound to a truthy value, and its
/// second branch otherwise; an unbound condition variable counts as false.
pub proof fn lemma_if_branches(name: Seq<char>, a: Seq<char>, b: Seq<char>, c: CtxV)
    ensures
        ({
            let node = NodeV::If {
                cond: CondV::Var(name),
                then_branch: seq![NodeV::Text(a)],
                else_branch: seq![NodeV::Text(b)],
            };
            sp_render_node(node, c).0 == Ok::<Seq<char>, RenderErr>(
                if c.vars.contains_key(name) && truthy(c.vars[name]) {
                    a
                } else {
                    b
                },
            ) && sp_render_node(node, c).1 == (CtxV {
                vars: c.vars,
                filters: c.filters.insert("size"@, Filter::Size),
            })
        }),
{
    let node = NodeV::If {
        cond: CondV::Var(name),
        then_branch: seq![NodeV::Text(a)],
        else_branch: seq![NodeV::Text(b)],
    };
    if sp_cond(CondV::Var(name), c) {
        lemma_render_single_text(a, c);
    } else {
        lemma_render_single_text(b, c);
    }
}

/// A loop over a variable bound to the empty array renders to empty text
/// and leaves the context unchanged, whatever its body.
pub proof fn lemma_for_empty_array(
    var_name: Seq<char>,
    array_id: Seq<char>,
    inner: Seq<NodeV>,
    c: CtxV,
)
    requires
        c.vars.contains_key(array_id),
        c.vars[array_id] == ValueV::Array(Seq::<ValueV>::empty()),
    ensures
        sp_render_node(NodeV::For { var_name, array_id, inner }, c) == (
            Ok::<Seq<char>, RenderErr>(Seq::<char>::empty()),
            c,
        ),
{
}

/// Rendering is a function of the template's and the context's models:
/// two value-equal contexts give identical output and identical final
/// contexts. Since `Template::render` is proved to return exactly what
/// `sp_render_template` states for the views of its arguments, rendering
/// one compiled template twice against independently built but value-equal
/// contexts yields identical output.
pub proof fn lemma_render_deterministic(t: Seq<NodeV>, c1: CtxV, c2: CtxV)
    requires
        c1 == c2,
    ensures
        sp_render_template(t, c1) == sp_render_template(t, c2),
{
}

} // verus!
