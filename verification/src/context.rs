//! The mutable evaluation environment threaded through a render: a variable
//! scope mapping names to values and a filter registry mapping names to
//! value transforms. Both are association lists in which the latest entry
//! for a name wins, modelled as maps.

use vstd::prelude::*;
use vstd::string::*;
use crate::value::{Value, ValueV, RenderErr};

verus! {

broadcast use vstd::std_specs::vec::group_vec_axioms, vstd::seq::group_seq_axioms;

/// A named pure transform applied to a value during variable rendering.
/// `Size` maps an array to its element count and text to its length.
#[derive(Clone, Copy, Debug, PartialEq, Eq)]
pub enum Filter {
    Size,
}

/// The mathematical model of a `Context`.
pub struct CtxV {
    pub vars: Map<Seq<char>, ValueV>,
    pub filters: Map<Seq<char>, Filter>,
}

/// The evaluation environment: a variable scope and a filter registry.
#[derive(Debug)]
pub struct Context {
    vars: Vec<(String, Value)>,
    filters: Vec<(String, Filter)>,
}

/// The map a variable association list denotes: later entries override
/// earlier ones.
pub open spec fn vars_map(s: Seq<(String, Value)>) -> Map<Seq<char>, ValueV>
    decreases s,
{
    if s.len() == 0 {
        Map::empty()
    } else {
        vars_map(s.drop_last()).insert(s.last().0@, s.last().1@)
    }
}

/// The map a filter association list denotes.
pub open spec fn filters_map(s: Seq<(String, Filter)>) -> Map<Seq<char>, Filter>
    decreases s,
{
    if s.len() == 0 {
        Map::empty()
    } else {
        filters_map(s.drop_last()).insert(s.last().0@, s.last().1)
    }
}

impl View for Context {
    type V = CtxV;

    closed spec fn view(&self) -> CtxV {
        CtxV { vars: vars_map(self.vars@), filters: filters_map(self.filters@) }
    }
}

/// Character-by-character string comparison.
pub fn str_eq(a: &str, b: &str) -> (r: bool)
    ensures
        r == (a@ == b@),
{
    let la = a.unicode_len();
    let lb = b.unicode_len();
    if la != lb {
        return false;
    }
    let mut i: usize = 0;
    while i < la
        invariant
            i <= la,
            la == a@.len(),
            la == b@.len(),
            forall|j: int| 0 <= j < i ==> a@[j] == b@[j],
        decreases la - i,
    {
        if a.get_char(i) != b.get_char(i) {
            return false;
        }
        i = i + 1;
    }
    proof {
        assert(a@ =~= b@);
    }
    true
}

impl Context {
    /// A fresh context with no variables and no filters.
    pub fn new() -> (r: Context)
        ensures
            r@.vars == Map::<Seq<char>, ValueV>::empty(),
            r@.filters == Map::<Seq<char>, Filter>::empty(),
    {
        Context { vars: Vec::new(), filters: Vec::new() }
    }

    /// The value bound to `name`, when there is one.
    pub fn get_val(&self, name: &str) -> (r: Option<&Value>)
        ensures
            match r {
                Some(v) => self@.vars.contains_key(name@) && v@ == self@.vars[name@],
                None => !self@.vars.contains_key(name@),
            },
    {
        let mut i: usize = self.vars.len();
        proof {
            assert(self.vars@.take(i as int) =~= self.vars@);
        }
        while i > 0
            invariant
                i <= self.vars@.len(),
                vars_map(self.vars@).contains_key(name@) == vars_map(
                    self.vars@.take(i as int),
                ).contains_key(name@),
                vars_map(self.vars@).contains_key(name@) ==> vars_map(self.vars@)[name@]
                    == vars_map(self.vars@.take(i as int))[name@],
            decreases i,
        {
            i = i - 1;
            proof {
                assert(self.vars@.take(i as int + 1).drop_last() =~= self.vars@.take(i as int));
                assert(self.vars@.take(i as int + 1).last() == self.vars@[i as int]);
            }
            if str_eq(self.vars[i].0.as_str(), name) {
                return Some(&self.vars[i].1);
            }
        }
        proof {
            assert(self.vars@.take(0) =~= Seq::<(String, Value)>::empty());
        }
        None
    }

    /// Binds `name` to `val`, overriding any earlier binding.
    pub fn set_val(&mut self, name: &str, val: Value)
        ensures
            final(self)@.vars == old(self)@.vars.insert(name@, val@),
            final(self)@.filters == old(self)@.filters,
    {
        let key = String::from_str(name);
        let ghost before = self.vars@;
        self.vars.push((key, val));
        proof {
            assert(self.vars@.drop_last() =~= before);
        }
    }

    /// The filter registered under `name`, when there is one.
    pub fn get_filter(&self, name: &str) -> (r: Option<Filter>)
        ensures
            match r {
                Some(f) => self@.filters.contains_key(name@) && f == self@.filters[name@],
                None => !self@.filters.contains_key(name@),
            },
    {
        let mut i: usize = self.filters.len();
        proof {
            assert(self.filters@.take(i as int) =~= self.filters@);
        }
        while i > 0
            invariant
                i <= self.filters@.len(),
                filters_map(self.filters@).contains_key(name@) == filters_map(
                    self.filters@.take(i as int),
                ).contains_key(name@),
                filters_map(self.filters@).contains_key(name@) ==> filters_map(
                    self.filters@,
                )[name@] == filters_map(self.filters@.take(i as int))[name@],
            decreases i,
        {
            i = i - 1;
            proof {
                assert(self.filters@.take(i as int + 1).drop_last() =~= self.filters@.take(
                    i as int,
                ));
                assert(self.filters@.take(i as int + 1).last() == self.filters@[i as int]);
            }
            if str_eq(self.filters[i].0.as_str(), name) {
                return Some(self.filters[i].1);
            }
        }
        proof {
            assert(self.filters@.take(0) =~= Seq::<(String, Filter)>::empty());
        }
        None
    }

    /// Registers `filter` under `name`, overriding any earlier registration.
    pub fn add_filter(&mut self, name: &str, filter: Filter)
        ensures
            final(self)@.filters == old(self)@.filters.insert(name@, filter),
            final(self)@.vars == old(self)@.vars,
    {
        let key = String::from_str(name);
        let ghost before = self.filters@;
        self.filters.push((key, filter));
        proof {
            assert(self.filters@.drop_last() =~= before);
        }
    }
}

impl Default for Context {
    fn default() -> (r: Context)
        ensures
            r@.vars == Map::<Seq<char>, ValueV>::empty(),
            r@.filters == Map::<Seq<char>, Filter>::empty(),
    {
        Context::new()
    }
}

/// What applying a filter to a value yields. `Size` is defined on text and
/// arrays whose length fits the numeric range, and is a type mismatch on
/// everything else.
pub open spec fn sp_apply_filter(f: Filter, v: ValueV) -> Result<ValueV, RenderErr> {
    match f {
        Filter::Size => match v {
            ValueV::Str(s) => if s.len() <= i64::MAX {
                Ok(ValueV::Num(s.len() as i64))
            } else {
                Err(RenderErr::TypeMismatch)
            },
            ValueV::Array(a) => if a.len() <= i64::MAX {
                Ok(ValueV::Num(a.len() as i64))
            } else {
                Err(RenderErr::TypeMismatch)
            },
            _ => Err(RenderErr::TypeMismatch),
        },
    }
}

/// The model of a value-or-render-error result.
pub open spec fn vres_view(r: Result<Value, RenderErr>) -> Result<ValueV, RenderErr> {
    match r {
        Ok(v) => Ok(v@),
        Err(e) => Err(e),
    }
}

/// Applies a filter to a value.
pub fn apply_filter(f: Filter, v: &Value) -> (r: Result<Value, RenderErr>)
    ensures
        vres_view(r) == sp_apply_filter(f, v@),
{
    match f {
        Filter::Size => match v {
            Value::Str(s) => {
                let l = s.as_str().unicode_len();
                if l as u64 <= i64::MAX as u64 {
                    Ok(Value::Num(l as i64))
                } else {
                    Err(RenderErr::TypeMismatch)
                }
            },
            Value::Array(a) => {
                proof {
                    crate::value::lemma_values_view(a@);
                }
                let l = a.len();
                if l as u64 <= i64::MAX as u64 {
                    Ok(Value::Num(l as i64))
                } else {
                    Err(RenderErr::TypeMismatch)
                }
            },
            _ => Err(RenderErr::TypeMismatch),
        },
    }
}

} // verus!
