//! The compiled program and its execution model: an immutable tree of
//! renderable nodes, a ghost mirror of that tree, and a definitional
//! interpreter that every render is proved to agree with.

use vstd::prelude::*;
use vstd::string::*;
use crate::value::{Value, ValueV, RenderErr, values_view, lemma_values_view, vtext, truthy};
use crate::context::{Context, CtxV, Filter, apply_filter, sp_apply_filter, vres_view};

verus! {

broadcast use vstd::std_specs::vec::group_vec_axioms, vstd::seq::group_seq_axioms;

/// The condition of an `if` block: either a variable to look up or a
/// literal value.
#[derive(Debug)]
pub enum Condition {
    Var(String),
    Lit(Value),
}

/// The model of a condition.
pub enum CondV {
    Var(Seq<char>),
    Lit(ValueV),
}

impl View for Condition {
    type V = CondV;

    open spec fn view(&self) -> CondV {
        match self {
            Condition::Var(s) => CondV::Var(s@),
            Condition::Lit(v) => CondV::Lit(v@),
        }
    }
}

/// One compiled node: a literal text run, a variable reference with its
/// filter chain, a raw span kept unevaluated, a discarded comment, a
/// conditional with two branches, or a loop over an array variable.
#[derive(Debug)]
pub enum Renderable {
    Text(String),
    Output { name: String, filters: Vec<String> },
    RawText(String),
    Comment,
    If { cond: Condition, then_branch: Template, else_branch: Template },
    For { var_name: String, array_id: String, inner: Template },
}

/// The compiled program: an immutable ordered sequence of nodes.
#[derive(Debug)]
pub struct Template {
    pub elements: Vec<Renderable>,
}

/// The model of a compiled node.
pub enum NodeV {
    Text(Seq<char>),
    Output { name: Seq<char>, filters: Seq<Seq<char>> },
    RawText(Seq<char>),
    Comment,
    If { cond: CondV, then_branch: Seq<NodeV>, else_branch: Seq<NodeV> },
    For { var_name: Seq<char>, array_id: Seq<char>, inner: Seq<NodeV> },
}

/// The models of a sequence of filter names.
pub open spec fn names_view(s: Seq<String>) -> Seq<Seq<char>> {
    s.map_values(|n: String| n@)
}

impl View for Renderable {
    type V = NodeV;

    open spec fn view(&self) -> NodeV
        decreases self,
    {
        match self {
            Renderable::Text(s) => NodeV::Text(s@),
            Renderable::Output { name, filters } => NodeV::Output {
                name: name@,
                filters: names_view(filters@),
            },
            Renderable::RawText(s) => NodeV::RawText(s@),
            Renderable::Comment => NodeV::Comment,
            Renderable::If { cond, then_branch, else_branch } => NodeV::If {
                cond: cond@,
                then_branch: nodes_view(then_branch.elements@),
                else_branch: nodes_view(else_branch.elements@),
            },
            Renderable::For { var_name, array_id, inner } => NodeV::For {
                var_name: var_name@,
                array_id: array_id@,
                inner: nodes_view(inner.elements@),
            },
        }
    }
}

/// The models of a sequence of compiled nodes.
pub open spec fn nodes_view(s: Seq<Renderable>) -> Seq<NodeV>
    decreases s,
{
    if s.len() == 0 {
        Seq::empty()
    } else {
        nodes_view(s.drop_last()).push(s.last()@)
    }
}

pub proof fn lemma_nodes_view(s: Seq<Renderable>)
    ensures
        nodes_view(s).len() == s.len(),
        forall|i: int| 0 <= i < s.len() ==> nodes_view(s)[i] == #[trigger] s[i]@,
    decreases s,
{
    if s.len() > 0 {
        lemma_nodes_view(s.drop_last());
        let vd = nodes_view(s.drop_last());
        assert(nodes_view(s) == vd.push(s.last()@));
        assert forall|i: int| 0 <= i < s.len() implies nodes_view(s)[i] == #[trigger] s[i]@ by {
            if i < s.len() - 1 {
                assert(s.drop_last()[i] == s[i]);
                assert(vd[i] == s.drop_last()[i]@);
                assert(vd.push(s.last()@)[i] == vd[i]);
            } else {
                assert(vd.push(s.last()@)[vd.len() as int] == s.last()@);
                assert(s.last() == s[i]);
            }
        }
    }
}

impl View for Template {
    type V = Seq<NodeV>;

    open spec fn view(&self) -> Seq<NodeV> {
        nodes_view(self.elements@)
    }
}

/// The model of a text-or-render-error result.
pub open spec fn sres_view(r: Result<String, RenderErr>) -> Result<Seq<char>, RenderErr> {
    match r {
        Ok(s) => Ok(s@),
        Err(e) => Err(e),
    }
}

/// The truthiness of a condition under a context: a missing variable
/// counts as false.
pub open spec fn sp_cond(cond: CondV, c: CtxV) -> bool {
    match cond {
        CondV::Lit(v) => truthy(v),
        CondV::Var(name) => c.vars.contains_key(name) && truthy(c.vars[name]),
    }
}

/// The value a filter chain yields, applied left to right; an unregistered
/// name is an unknown-filter error.
pub open spec fn sp_filter_chain(fs: Seq<Seq<char>>, v: ValueV, c: CtxV) -> Result<
    ValueV,
    RenderErr,
>
    decreases fs.len(),
{
    if fs.len() == 0 {
        Ok(v)
    } else if !c.filters.contains_key(fs[0]) {
        Err(RenderErr::UnknownFilter)
    } else {
        match sp_apply_filter(c.filters[fs[0]], v) {
            Ok(v2) => sp_filter_chain(fs.drop_first(), v2, c),
            Err(e) => Err(e),
        }
    }
}

/// The text a variable reference produces: the variable's value, passed
/// through the filter chain, rendered as text; an unbound name is an
/// undefined-variable error.
pub open spec fn sp_render_output(name: Seq<char>, fs: Seq<Seq<char>>, c: CtxV) -> Result<
    Seq<char>,
    RenderErr,
> {
    if !c.vars.contains_key(name) {
        Err(RenderErr::UndefinedVariable)
    } else {
        match sp_filter_chain(fs, c.vars[name], c) {
            Ok(v) => Ok(vtext(v)),
            Err(e) => Err(e),
        }
    }
}

/// Renders a sequence of nodes in order, threading the context through and
/// concatenating the produced text; the first failure aborts the render.
pub open spec fn sp_render_list(ns: Seq<NodeV>, c: CtxV) -> (Result<Seq<char>, RenderErr>, CtxV)
    decreases ns, 0nat, 0nat,
{
    if ns.len() == 0 {
        (Ok(Seq::empty()), c)
    } else {
        let (r0, c0) = sp_render_node(ns[0], c);
        match r0 {
            Err(e) => (Err(e), c0),
            Ok(t0) => {
                let (r1, c1) = sp_render_list(ns.drop_first(), c0);
                match r1 {
                    Err(e) => (Err(e), c1),
                    Ok(t1) => (Ok(t0 + t1), c1),
                }
            },
        }
    }
}

/// Renders a template: the built-in `size` filter is made available first,
/// then the nodes are rendered in order.
pub open spec fn sp_render_template(ns: Seq<NodeV>, c: CtxV) -> (Result<Seq<char>, RenderErr>, CtxV)
    decreases ns, 1nat, 0nat,
{
    let c1 = CtxV { vars: c.vars, filters: c.filters.insert("size"@, Filter::Size) };
    sp_render_list(ns, c1)
}

/// Renders one node under a context.
pub open spec fn sp_render_node(n: NodeV, c: CtxV) -> (Result<Seq<char>, RenderErr>, CtxV)
    decreases n, 2nat, 0nat,
{
    match n {
        NodeV::Text(t) => (Ok(t), c),
        NodeV::RawText(t) => (Ok(t), c),
        NodeV::Comment => (Ok(Seq::empty()), c),
        NodeV::Output { name, filters } => (sp_render_output(name, filters, c), c),
        NodeV::If { cond, then_branch, else_branch } => {
            if sp_cond(cond, c) {
                sp_render_template(then_branch, c)
            } else {
                sp_render_template(else_branch, c)
            }
        },
        NodeV::For { var_name, array_id, inner } => {
            if !c.vars.contains_key(array_id) {
                (Err(RenderErr::UndefinedVariable), c)
            } else {
                match c.vars[array_id] {
                    ValueV::Array(items) => sp_render_for(inner, var_name, items, c),
                    _ => (Err(RenderErr::TypeMismatch), c),
                }
            }
        },
    }
}

/// Renders a loop body once per array element in order, binding the loop
/// variable to the element first; the last binding stays visible after the
/// loop. An empty array renders to empty text.
pub open spec fn sp_render_for(
    inner: Seq<NodeV>,
    var_name: Seq<char>,
    items: Seq<ValueV>,
    c: CtxV,
) -> (Result<Seq<char>, RenderErr>, CtxV)
    decreases inner, 2nat, items.len(),
{
    if items.len() == 0 {
        (Ok(Seq::empty()), c)
    } else {
        let c1 = CtxV { vars: c.vars.insert(var_name, items[0]), filters: c.filters };
        let (r0, c2) = sp_render_template(inner, c1);
        match r0 {
            Err(e) => (Err(e), c2),
            Ok(t0) => {
                let (r1, c3) = sp_render_for(inner, var_name, items.drop_first(), c2);
                match r1 {
                    Err(e) => (Err(e), c3),
                    Ok(t1) => (Ok(t0 + t1), c3),
                }
            },
        }
    }
}

/// Whether a value is truthy.
pub fn truthy_exec(v: &Value) -> (b: bool)
    ensures
        b == truthy(v@),
{
    match v {
        Value::Bool(b) => *b,
        Value::Num(n) => *n != 0,
        Value::Str(s) => s.as_str().unicode_len() > 0,
        Value::Array(a) => {
            proof {
                lemma_values_view(a@);
            }
            a.len() > 0
        },
    }
}

/// Evaluates a condition under a context. Does not change the context.
pub fn eval_cond(cond: &Condition, context: &mut Context) -> (b: bool)
    ensures
        final(context)@ == old(context)@,
        b == sp_cond(cond@, old(context)@),
{
    match cond {
        Condition::Lit(v) => truthy_exec(v),
        Condition::Var(name) => match context.get_val(name.as_str()) {
            Some(v) => truthy_exec(v),
            None => false,
        },
    }
}

/// The array bound to `array_id`, copied out of the context: an unbound
/// name is an undefined-variable error, any non-array value a type
/// mismatch.
pub fn get_array(context: &mut Context, array_id: &str) -> (r: Result<Vec<Value>, RenderErr>)
    ensures
        final(context)@ == old(context)@,
        match r {
            Ok(items) => old(context)@.vars.contains_key(array_id@) && old(
                context,
            )@.vars[array_id@] == ValueV::Array(values_view(items@)),
            Err(e) => {
                &&& (e == RenderErr::UndefinedVariable || e == RenderErr::TypeMismatch)
                &&& (e == RenderErr::UndefinedVariable <==> !old(context)@.vars.contains_key(
                    array_id@,
                ))
                &&& (e == RenderErr::TypeMismatch ==> !(old(context)@.vars[array_id@] is Array))
            },
        },
{
    match context.get_val(array_id) {
        None => Err(RenderErr::UndefinedVariable),
        Some(v) => {
            let dup = v.duplicate();
            match dup {
                Value::Array(items) => Ok(items),
                _ => Err(RenderErr::TypeMismatch),
            }
        },
    }
}

/// Renders a variable reference. Does not change the context.
fn render_output(name: &String, filters: &Vec<String>, context: &mut Context) -> (r: Result<
    String,
    RenderErr,
>)
    ensures
        final(context)@ == old(context)@,
        sres_view(r) == sp_render_output(name@, names_view(filters@), old(context)@),
{
    let ghost fs = names_view(filters@);
    match context.get_val(name.as_str()) {
        None => Err(RenderErr::UndefinedVariable),
        Some(v) => {
            let ghost v0 = v@;
            let mut cur = v.duplicate();
            let mut i: usize = 0;
            proof {
                assert(fs.skip(0) =~= fs);
            }
            while i < filters.len()
                invariant
                    i <= filters@.len(),
                    context@ == old(context)@,
                    old(context)@.vars.contains_key(name@),
                    v0 == old(context)@.vars[name@],
                    fs == names_view(filters@),
                    fs.len() == filters@.len(),
                    sp_filter_chain(fs, v0, context@) == sp_filter_chain(
                        fs.skip(i as int),
                        cur@,
                        context@,
                    ),
                decreases filters@.len() - i,
            {
                proof {
                    assert(fs.skip(i as int)[0] == fs[i as int]);
                    assert(fs[i as int] == filters@[i as int]@);
                    assert(fs.skip(i as int).drop_first() =~= fs.skip(i as int + 1));
                }
                match context.get_filter(filters[i].as_str()) {
                    None => {
                        proof {
                            assert(sp_filter_chain(fs.skip(i as int), cur@, context@) == Err::<
                                ValueV,
                                RenderErr,
                            >(RenderErr::UnknownFilter));
                        }
                        return Err(RenderErr::UnknownFilter);
                    },
                    Some(f) => {
                        match apply_filter(f, &cur) {
                            Ok(next) => {
                                cur = next;
                                i = i + 1;
                            },
                            Err(e) => {
                                proof {
                                    assert(sp_filter_chain(fs.skip(i as int), cur@, context@)
                                        == Err::<ValueV, RenderErr>(e));
                                }
                                return Err(e);
                            },
                        }
                    },
                }
            }
            proof {
                assert(fs.skip(filters@.len() as int).len() == 0);
                assert(sp_filter_chain(fs.skip(filters@.len() as int), cur@, context@) == Ok::<
                    ValueV,
                    RenderErr,
                >(cur@));
            }
            Ok(cur.to_text())
        },
    }
}

impl Template {
    /// Wraps a sequence of compiled nodes as a template.
    pub fn new(elements: Vec<Renderable>) -> (r: Template)
        ensures
            r.elements@ == elements@,
            r@ == nodes_view(elements@),
    {
        Template { elements }
    }

    /// Renders this template against a context: makes the built-in `size`
    /// filter available, then renders every node in order, concatenating
    /// the produced text; the first failing node aborts the render with
    /// its error.
    pub fn render(&self, context: &mut Context) -> (r: Result<String, RenderErr>)
        ensures
            ({
                let (sr, sc) = sp_render_template(self@, old(context)@);
                sres_view(r) == sr && final(context)@ == sc
            }),
        decreases self, 1nat,
    {
        context.add_filter("size", Filter::Size);
        let ghost c_start = context@;
        let ghost total = self@;
        proof {
            lemma_nodes_view(self.elements@);
            assert(total.skip(0) =~= total);
        }
        let mut out = String::new();
        let mut i: usize = 0;
        while i < self.elements.len()
            invariant
                i <= self.elements@.len(),
                total == nodes_view(self.elements@),
                total.len() == self.elements@.len(),
                forall|j: int| 0 <= j < total.len() ==> total[j] == #[trigger] self.elements@[j]@,
                sp_render_template(total, old(context)@) == sp_render_list(total, c_start),
                ({
                    let (rr, cf) = sp_render_list(total.skip(i as int), context@);
                    match rr {
                        Ok(rest) => sp_render_list(total, c_start) == (
                            Ok::<Seq<char>, RenderErr>(out@ + rest),
                            cf,
                        ),
                        Err(e) => sp_render_list(total, c_start) == (Err::<
                            Seq<char>,
                            RenderErr,
                        >(e), cf),
                    }
                }),
            decreases self.elements@.len() - i,
        {
            proof {
                assert(decreases_to!(*self => self.elements));
                assert(decreases_to!(self.elements => self.elements@));
                assert(decreases_to!(self.elements@ => self.elements@[i as int]));
                assert(total.skip(i as int)[0] == total[i as int]);
                assert(total.skip(i as int).drop_first() =~= total.skip(i as int + 1));
            }
            let ghost c_pre = context@;
            let node = &self.elements[i];
            match node.render(context) {
                Ok(piece) => {
                    let ghost out_old = out@;
                    out.append(piece.as_str());
                    proof {
                        assert(sp_render_node(total[i as int], c_pre) == (Ok::<
                            Seq<char>,
                            RenderErr,
                        >(piece@), context@));
                        let (rr1, cf1) = sp_render_list(total.skip(i as int + 1), context@);
                        if rr1 is Ok {
                            assert(out@ + rr1->Ok_0 =~= out_old + (piece@ + rr1->Ok_0));
                            assert(sp_render_list(total.skip(i as int), c_pre) == (Ok::<
                                Seq<char>,
                                RenderErr,
                            >(piece@ + rr1->Ok_0), cf1));
                        } else {
                            assert(sp_render_list(total.skip(i as int), c_pre) == (Err::<
                                Seq<char>,
                                RenderErr,
                            >(rr1->Err_0), cf1));
                        }
                    }
                    i = i + 1;
                },
                Err(e) => {
                    proof {
                        assert(sp_render_list(total.skip(i as int), c_pre) == (Err::<
                            Seq<char>,
                            RenderErr,
                        >(e), context@));
                    }
                    return Err(e);
                },
            }
        }
        proof {
            assert(total.skip(total.len() as int).len() == 0);
            assert(out@ + Seq::<char>::empty() =~= out@);
        }
        Ok(out)
    }
}

impl Renderable {
    /// Renders one node against a context.
    pub fn render(&self, context: &mut Context) -> (r: Result<String, RenderErr>)
        ensures
            ({
                let (sr, sc) = sp_render_node(self@, old(context)@);
                sres_view(r) == sr && final(context)@ == sc
            }),
        decreases self, 2nat,
    {
        match self {
            Renderable::Text(s) => Ok(s.clone()),
            Renderable::RawText(s) => Ok(s.clone()),
            Renderable::Comment => Ok(String::new()),
            Renderable::Output { name, filters } => render_output(name, filters, context),
            Renderable::If { cond, then_branch, else_branch } => {
                let b = eval_cond(cond, context);
                proof {
                    assert(decreases_to!(*self => *then_branch));
                    assert(decreases_to!(*self => *else_branch));
                }
                if b {
                    then_branch.render(context)
                } else {
                    else_branch.render(context)
                }
            },
            Renderable::For { var_name, array_id, inner } => {
                let ghost n = self@;
                let items = match get_array(context, array_id.as_str()) {
                    Ok(items) => items,
                    Err(e) => {
                        return Err(e);
                    },
                };
                let ghost itemsv = values_view(items@);
                proof {
                    lemma_values_view(items@);
                    assert(itemsv.skip(0) =~= itemsv);
                }
                let ghost c_start = context@;
                let ghost iv = nodes_view(inner.elements@);
                let mut out = String::new();
                let mut i: usize = 0;
                proof {
                    assert(n == NodeV::For {
                        var_name: var_name@,
                        array_id: array_id@,
                        inner: iv,
                    });
                }
                while i < items.len()
                    invariant
                        decreases_to!(*self => *inner),
                        i <= items@.len(),
                        itemsv == values_view(items@),
                        itemsv.len() == items@.len(),
                        forall|j: int| 0 <= j < itemsv.len() ==> itemsv[j] == #[trigger] items@[j]@,
                        iv == nodes_view(inner.elements@),
                        iv == inner@,
                        n == self@,
                        n == (NodeV::For { var_name: var_name@, array_id: array_id@, inner: iv }),
                        c_start == old(context)@,
                        old(context)@.vars.contains_key(array_id@),
                        old(context)@.vars[array_id@] == ValueV::Array(itemsv),
                        ({
                            let (rr, cf) = sp_render_for(
                                iv,
                                var_name@,
                                itemsv.skip(i as int),
                                context@,
                            );
                            match rr {
                                Ok(rest) => sp_render_for(iv, var_name@, itemsv, c_start) == (
                                    Ok::<Seq<char>, RenderErr>(out@ + rest),
                                    cf,
                                ),
                                Err(e) => sp_render_for(iv, var_name@, itemsv, c_start) == (Err::<
                                    Seq<char>,
                                    RenderErr,
                                >(e), cf),
                            }
                        }),
                    decreases items@.len() - i,
                {
                    proof {
                        assert(itemsv.skip(i as int)[0] == itemsv[i as int]);
                        assert(itemsv.skip(i as int).drop_first() =~= itemsv.skip(i as int + 1));
                    }
                    let ghost c_pre = context@;
                    let item = items[i].duplicate();
                    context.set_val(var_name.as_str(), item);
                    let ghost c_bound = context@;
                    match inner.render(context) {
                        Ok(piece) => {
                            let ghost out_old = out@;
                            out.append(piece.as_str());
                            proof {
                                assert(sp_render_template(iv, c_bound) == (Ok::<
                                    Seq<char>,
                                    RenderErr,
                                >(piece@), context@));
                                let (rr1, cf1) = sp_render_for(
                                    iv,
                                    var_name@,
                                    itemsv.skip(i as int + 1),
                                    context@,
                                );
                                if rr1 is Ok {
                                    assert(out@ + rr1->Ok_0 =~= out_old + (piece@ + rr1->Ok_0));
                                    assert(sp_render_for(iv, var_name@, itemsv.skip(i as int), c_pre)
                                        == (Ok::<Seq<char>, RenderErr>(piece@ + rr1->Ok_0), cf1));
                                } else {
                                    assert(sp_render_for(iv, var_name@, itemsv.skip(i as int), c_pre)
                                        == (Err::<Seq<char>, RenderErr>(rr1->Err_0), cf1));
                                }
                            }
                            i = i + 1;
                        },
                        Err(e) => {
                            proof {
                                assert(sp_render_for(iv, var_name@, itemsv.skip(i as int), c_pre)
                                    == (Err::<Seq<char>, RenderErr>(e), context@));
                            }
                            return Err(e);
                        },
                    }
                }
                proof {
                    assert(itemsv.skip(itemsv.len() as int).len() == 0);
                    assert(out@ + Seq::<char>::empty() =~= out@);
                    assert(sp_render_node(n, c_start) == sp_render_for(iv, var_name@, itemsv, c_start));
                }
                Ok(out)
            },
        }
    }
}

} // verus!
