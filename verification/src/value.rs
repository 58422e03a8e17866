//! The runtime datatype flowing through variables, expressions and filters,
//! together with its mathematical model: a deep view whose text fields are
//! character sequences, the truthiness rule, and the textual rendering of a
//! value.

use vstd::prelude::*;
use vstd::string::*;

verus! {

broadcast use vstd::std_specs::vec::group_vec_axioms, vstd::seq::group_seq_axioms;

/// A runtime value: a number, a piece of text, a boolean, or an ordered
/// array of values. Values are immutable once constructed and are copied on
/// assignment into a context.
#[derive(Debug, PartialEq)]
pub enum Value {
    Num(i64),
    Str(String),
    Bool(bool),
    Array(Vec<Value>),
}

/// The mathematical model of a `Value`: the same tree with every text field
/// replaced by its character sequence.
pub enum ValueV {
    Num(i64),
    Str(Seq<char>),
    Bool(bool),
    Array(Seq<ValueV>),
}

impl View for Value {
    type V = ValueV;

    open spec fn view(&self) -> ValueV
        decreases self,
    {
        match self {
            Value::Num(n) => ValueV::Num(*n),
            Value::Str(s) => ValueV::Str(s@),
            Value::Bool(b) => ValueV::Bool(*b),
            Value::Array(a) => ValueV::Array(values_view(a@)),
        }
    }
}

/// The model of an ordered sequence of values.
pub open spec fn values_view(a: Seq<Value>) -> Seq<ValueV>
    decreases a,
{
    if a.len() == 0 {
        Seq::empty()
    } else {
        values_view(a.drop_last()).push(a.last()@)
    }
}

pub proof fn lemma_values_view(a: Seq<Value>)
    ensures
        values_view(a).len() == a.len(),
        forall|i: int| 0 <= i < a.len() ==> values_view(a)[i] == #[trigger] a[i]@,
    decreases a,
{
    if a.len() > 0 {
        lemma_values_view(a.drop_last());
        let vd = values_view(a.drop_last());
        assert(values_view(a) == vd.push(a.last()@));
        assert forall|i: int| 0 <= i < a.len() implies values_view(a)[i] == #[trigger] a[i]@ by {
            if i < a.len() - 1 {
                assert(a.drop_last()[i] == a[i]);
                assert(vd[i] == a.drop_last()[i]@);
                assert(vd.push(a.last()@)[i] == vd[i]);
            } else {
                assert(vd.push(a.last()@)[vd.len() as int] == a.last()@);
                assert(a.last() == a[i]);
            }
        }
    }
}

/// The errors a render can signal: a variable that is not bound in the
/// context, a value of the wrong variant for the operation at hand, and a
/// filter name with no registered filter.
#[derive(Clone, Copy, Debug, PartialEq, Eq)]
pub enum RenderErr {
    UndefinedVariable,
    TypeMismatch,
    UnknownFilter,
}

/// The truthiness policy: a boolean counts as itself, a number is true when
/// nonzero, text and arrays are true when non-empty.
pub open spec fn truthy(v: ValueV) -> bool {
    match v {
        ValueV::Bool(b) => b,
        ValueV::Num(n) => n != 0,
        ValueV::Str(s) => s.len() > 0,
        ValueV::Array(a) => a.len() > 0,
    }
}

/// The character for one decimal digit.
pub open spec fn digit_char(d: int) -> char {
    if d == 0 {
        '0'
    } else if d == 1 {
        '1'
    } else if d == 2 {
        '2'
    } else if d == 3 {
        '3'
    } else if d == 4 {
        '4'
    } else if d == 5 {
        '5'
    } else if d == 6 {
        '6'
    } else if d == 7 {
        '7'
    } else if d == 8 {
        '8'
    } else {
        '9'
    }
}

/// The decimal digits of a natural number, most significant first.
pub open spec fn dec_nat(n: nat) -> Seq<char>
    decreases n,
{
    if n < 10 {
        seq![digit_char(n as int)]
    } else {
        dec_nat(n / 10).push(digit_char((n % 10) as int))
    }
}

/// The decimal text of an integer: a leading minus sign when negative.
pub open spec fn decimal(n: int) -> Seq<char> {
    if n < 0 {
        seq!['-'] + dec_nat((-n) as nat)
    } else {
        dec_nat(n as nat)
    }
}

/// The textual rendering of a value: a number in decimal, text as itself,
/// a boolean as `true`/`false`, and an array as the concatenation of its
/// elements' renderings.
pub open spec fn vtext(v: ValueV) -> Seq<char>
    decreases v,
{
    match v {
        ValueV::Num(n) => decimal(n as int),
        ValueV::Str(s) => s,
        ValueV::Bool(b) => if b {
            "true"@
        } else {
            "false"@
        },
        ValueV::Array(a) => vtext_list(a),
    }
}

/// The concatenated renderings of a sequence of values.
pub open spec fn vtext_list(a: Seq<ValueV>) -> Seq<char>
    decreases a,
{
    if a.len() == 0 {
        Seq::empty()
    } else {
        vtext_list(a.drop_last()) + vtext(a.last())
    }
}

/// The decimal digits of a little-endian digit list, read back most
/// significant first.
pub open spec fn chars_of_rev(ds: Seq<u8>) -> Seq<char>
    decreases ds,
{
    if ds.len() == 0 {
        Seq::empty()
    } else {
        seq![digit_char(ds.last() as int)] + chars_of_rev(ds.drop_last())
    }
}

proof fn lemma_chars_of_rev_first(ds: Seq<u8>)
    requires
        ds.len() > 0,
    ensures
        chars_of_rev(ds) =~= chars_of_rev(ds.drop_first()) + seq![
            digit_char(ds.first() as int),
        ],
    decreases ds.len(),
{
    if ds.len() > 1 {
        lemma_chars_of_rev_first(ds.drop_last());
        assert(ds.drop_last().first() == ds.first());
        assert(ds.drop_first().last() == ds.last());
        assert(ds.drop_first().drop_last() =~= ds.drop_last().drop_first());
        assert(chars_of_rev(ds.drop_first()) == seq![digit_char(ds.drop_first().last() as int)]
            + chars_of_rev(ds.drop_first().drop_last()));
        assert(chars_of_rev(ds.drop_last()) =~= chars_of_rev(ds.drop_last().drop_first()) + seq![
            digit_char(ds.first() as int),
        ]);
        assert(chars_of_rev(ds) =~= (seq![digit_char(ds.last() as int)] + chars_of_rev(
            ds.drop_last().drop_first(),
        )) + seq![digit_char(ds.first() as int)]);
        assert(chars_of_rev(ds.drop_first()) == seq![digit_char(ds.last() as int)] + chars_of_rev(
            ds.drop_last().drop_first(),
        ));
        assert(chars_of_rev(ds) =~= chars_of_rev(ds.drop_first()) + seq![
            digit_char(ds.first() as int),
        ]);
    } else {
        assert(ds.drop_first().len() == 0);
        assert(chars_of_rev(ds.drop_first()) == Seq::<char>::empty());
        assert(ds.drop_last().len() == 0);
        assert(chars_of_rev(ds.drop_last()) == Seq::<char>::empty());
        assert(ds.last() == ds.first());
        assert(chars_of_rev(ds) =~= chars_of_rev(ds.drop_first()) + seq![
            digit_char(ds.first() as int),
        ]);
    }
}

/// One decimal digit as a string slice.
fn digit_str(d: u8) -> (r: &'static str)
    requires
        d < 10,
    ensures
        r@ =~= seq![digit_char(d as int)],
{
    if d == 0 {
        proof {
            reveal_strlit("0");
        }
        "0"
    } else if d == 1 {
        proof {
            reveal_strlit("1");
        }
        "1"
    } else if d == 2 {
        proof {
            reveal_strlit("2");
        }
        "2"
    } else if d == 3 {
        proof {
            reveal_strlit("3");
        }
        "3"
    } else if d == 4 {
        proof {
            reveal_strlit("4");
        }
        "4"
    } else if d == 5 {
        proof {
            reveal_strlit("5");
        }
        "5"
    } else if d == 6 {
        proof {
            reveal_strlit("6");
        }
        "6"
    } else if d == 7 {
        proof {
            reveal_strlit("7");
        }
        "7"
    } else if d == 8 {
        proof {
            reveal_strlit("8");
        }
        "8"
    } else {
        proof {
            reveal_strlit("9");
        }
        "9"
    }
}

/// Appends the decimal digits of `m` to `out`.
fn append_dec(out: &mut String, m: u64)
    ensures
        final(out)@ == old(out)@ + dec_nat(m as nat),
{
    let ghost m0: nat = m as nat;
    let mut digits: Vec<u8> = Vec::new();
    let mut m = m;
    while m >= 10
        invariant
            dec_nat(m0) =~= dec_nat(m as nat) + chars_of_rev(digits@),
            forall|j: int| 0 <= j < digits@.len() ==> digits@[j] < 10,
        decreases m,
    {
        let d: u8 = (m % 10) as u8;
        proof {
            assert(dec_nat(m as nat) =~= dec_nat((m as nat) / 10).push(
                digit_char(((m as nat) % 10) as int),
            ));
            assert(digits@.push(d).drop_last() =~= digits@);
        }
        digits.push(d);
        m = m / 10;
        proof {
            assert(dec_nat(m0) =~= dec_nat(m as nat) + chars_of_rev(digits@));
        }
    }
    proof {
        assert(digits@.push(m as u8).drop_last() =~= digits@);
    }
    digits.push(m as u8);
    proof {
        assert(chars_of_rev(digits@) =~= seq![digit_char(digits@.last() as int)] + chars_of_rev(
            digits@.drop_last(),
        ));
        assert(dec_nat(m0) =~= chars_of_rev(digits@));
    }
    let ghost out0 = out@;
    let mut i: usize = digits.len();
    while i > 0
        invariant
            i <= digits.len(),
            forall|j: int| 0 <= j < digits@.len() ==> digits@[j] < 10,
            out@ =~= out0 + chars_of_rev(digits@.skip(i as int)),
        decreases i,
    {
        i = i - 1;
        let ghost pre = digits@.skip(i as int + 1);
        out.append(digit_str(digits[i]));
        proof {
            lemma_chars_of_rev_first(digits@.skip(i as int));
            assert(digits@.skip(i as int).drop_first() =~= pre);
            assert(digits@.skip(i as int).first() == digits@[i as int]);
            assert(out@ =~= out0 + chars_of_rev(digits@.skip(i as int)));
        }
    }
    proof {
        assert(digits@.skip(0) =~= digits@);
    }
}

impl Value {
    /// A structurally equal copy of this value.
    pub fn duplicate(&self) -> (r: Value)
        ensures
            r@ == self@,
        decreases self,
    {
        match self {
            Value::Num(n) => Value::Num(*n),
            Value::Str(s) => Value::Str(s.clone()),
            Value::Bool(b) => Value::Bool(*b),
            Value::Array(a) => {
                let mut out: Vec<Value> = Vec::new();
                let mut i: usize = 0;
                while i < a.len()
                    invariant
                        *self is Array,
                        self->Array_0@ == a@,
                        i <= a.len(),
                        out@.len() == i,
                        forall|j: int| 0 <= j < i ==> out@[j]@ == #[trigger] a@[j]@,
                    decreases a.len() - i,
                {
                    proof {
                        assert(decreases_to!(*self => self->Array_0));
                        assert(decreases_to!(self->Array_0 => self->Array_0@));
                        assert(self->Array_0@ == a@);
                        assert(0 <= i < self->Array_0@.len());
                        assert(decreases_to!(self->Array_0@ => self->Array_0@[i as int]));
                    }
                    let v = a[i].duplicate();
                    out.push(v);
                    i = i + 1;
                }
                proof {
                    lemma_values_view(out@);
                    lemma_values_view(a@);
                    assert forall|j: int| 0 <= j < a@.len() implies values_view(out@)[j]
                        == values_view(a@)[j] by {
                        assert(out@[j]@ == a@[j]@);
                    }
                    assert(values_view(out@) =~= values_view(a@));
                }
                Value::Array(out)
            },
        }
    }

    /// The textual rendering of this value.
    pub fn to_text(&self) -> (r: String)
        ensures
            r@ == vtext(self@),
        decreases self,
    {
        match self {
            Value::Num(n) => {
                let mut out = String::new();
                if *n < 0 {
                    proof {
                        reveal_strlit("-");
                    }
                    out.append("-");
                    let m: u64 = ((-(*n + 1)) as u64) + 1;
                    proof {
                        assert(m as nat == (-(*n as int)) as nat);
                        assert("-"@ =~= seq!['-']);
                    }
                    append_dec(&mut out, m);
                    proof {
                        assert(out@ =~= decimal(*n as int));
                    }
                } else {
                    append_dec(&mut out, *n as u64);
                }
                out
            },
            Value::Str(s) => s.clone(),
            Value::Bool(b) => {
                if *b {
                    String::from_str("true")
                } else {
                    String::from_str("false")
                }
            },
            Value::Array(a) => {
                let ghost av = values_view(a@);
                proof {
                    lemma_values_view(a@);
                }
                let mut out = String::new();
                let mut i: usize = 0;
                while i < a.len()
                    invariant
                        *self is Array,
                        self->Array_0@ == a@,
                        i <= a.len(),
                        av == values_view(a@),
                        av.len() == a@.len(),
                        forall|j: int| 0 <= j < a@.len() ==> av[j] == #[trigger] a@[j]@,
                        out@ =~= vtext_list(av.take(i as int)),
                    decreases a.len() - i,
                {
                    proof {
                        assert(decreases_to!(*self => self->Array_0));
                        assert(decreases_to!(self->Array_0 => self->Array_0@));
                        assert(self->Array_0@ == a@);
                        assert(0 <= i < self->Array_0@.len());
                        assert(decreases_to!(self->Array_0@ => self->Array_0@[i as int]));
                    }
                    let piece = a[i].to_text();
                    out.append(piece.as_str());
                    i = i + 1;
                    proof {
                        assert(av.take(i as int).drop_last() =~= av.take(i as int - 1));
                        assert(vtext_list(av.take(i as int)) =~= vtext_list(av.take(i as int - 1))
                            + vtext(av[i as int - 1]));
                    }
                }
                proof {
                    assert(av.take(a@.len() as int) =~= av);
                }
                out
            },
        }
    }
}

} // verus!
