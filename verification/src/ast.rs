use vstd::prelude::*;

use std::rc::Rc;

use crate::chars::{push_str_chars, string_from_chars};
use crate::decimal::{int_text, push_int_text};

verus! {

/// A single-variant carrier of a human-readable failure description.
#[derive(Debug)]
pub enum ExprErr {
    Cause(String),
}

impl ExprErr {
    pub open spec fn text(&self) -> Seq<char> {
        match self {
            ExprErr::Cause(s) => s@,
        }
    }

    /// The failure description carried by this error.
    pub fn message(&self) -> (r: String)
        ensures
            r@ == self.text(),
    {
        match self {
            ExprErr::Cause(s) => s.clone(),
        }
    }
}

/// The four arithmetic built-ins the global environment is seeded with.
#[derive(Clone, Copy, Debug, PartialEq, Eq, Structural)]
pub enum Builtin {
    Add,
    Sub,
    Mul,
    Div,
}

/// A user-defined procedure: ordered parameter names and a shared body.
#[derive(Debug)]
pub struct Lambda {
    pub args: Vec<String>,
    pub body: Rc<Expr>,
}

/// The tagged union shared by parsed syntax and runtime values.
#[derive(Debug)]
pub enum Expr {
    Number(i64),
    String(String),
    Symbol(String),
    List(Vec<Expr>),
    True,
    Nil,
    Func(Builtin),
    Lambda(Lambda),
}

/// The mathematical shape of an expression: unbounded integers, character
/// sequences, and sequences of child shapes.
pub enum ExprModel {
    Number(int),
    String(Seq<char>),
    Symbol(Seq<char>),
    List(Seq<ExprModel>),
    True,
    Nil,
    Func(Builtin),
    Lambda(Seq<Seq<char>>, Box<ExprModel>),
}

impl Expr {
    pub open spec fn model(self) -> ExprModel
        decreases self,
    {
        match self {
            Expr::Number(n) => ExprModel::Number(n as int),
            Expr::String(s) => ExprModel::String(s@),
            Expr::Symbol(s) => ExprModel::Symbol(s@),
            Expr::List(v) => ExprModel::List(Self::model_seq(v@)),
            Expr::True => ExprModel::True,
            Expr::Nil => ExprModel::Nil,
            Expr::Func(b) => ExprModel::Func(b),
            Expr::Lambda(l) => ExprModel::Lambda(l.args.deep_view(), Box::new((*l.body).model())),
        }
    }

    pub open spec fn model_seq(s: Seq<Expr>) -> Seq<ExprModel>
        decreases s,
    {
        if s.len() == 0 {
            Seq::empty()
        } else {
            seq![s[0].model()] + Self::model_seq(s.drop_first())
        }
    }

    pub proof fn model_seq_index(s: Seq<Expr>)
        ensures
            Self::model_seq(s).len() == s.len(),
            forall|i: int|
                #![trigger s[i].model()]
                #![trigger Self::model_seq(s)[i]]
                0 <= i < s.len() ==> Self::model_seq(s)[i] == s[i].model(),
        decreases s.len(),
    {
        if s.len() > 0 {
            Self::model_seq_index(s.drop_first());
            assert forall|i: int| 0 <= i < s.len() implies Self::model_seq(s)[i] == s[i].model() by {
                if i > 0 {
                    assert(s.drop_first()[i - 1] == s[i]);
                }
            }
        }
    }

    pub proof fn model_seq_push(s: Seq<Expr>, x: Expr)
        ensures
            Self::model_seq(s.push(x)) == Self::model_seq(s).push(x.model()),
    {
        Self::model_seq_index(s.push(x));
        Self::model_seq_index(s);
        assert(Self::model_seq(s.push(x)) =~= Self::model_seq(s).push(x.model()));
    }

    /// The number of nodes of the expression tree; a termination measure.
    pub open spec fn size(self) -> nat
        decreases self,
    {
        match self {
            Expr::List(v) => 1 + Self::size_seq(v@),
            _ => 1,
        }
    }

    pub open spec fn size_seq(s: Seq<Expr>) -> nat
        decreases s,
    {
        if s.len() == 0 {
            0
        } else {
            s[0].size() + Self::size_seq(s.drop_first())
        }
    }

    pub proof fn lemma_size_elem(s: Seq<Expr>, i: int)
        requires
            0 <= i < s.len(),
        ensures
            s[i].size() <= Self::size_seq(s),
        decreases s.len(),
    {
        if i > 0 {
            Self::lemma_size_elem(s.drop_first(), i - 1);
            assert(s.drop_first()[i - 1] == s[i]);
        }
    }
}

impl View for Expr {
    type V = ExprModel;

    open spec fn view(&self) -> ExprModel {
        self.model()
    }
}

/// The display text of an expression.
pub open spec fn expr_text(e: ExprModel) -> Seq<char>
    decreases e,
{
    match e {
        ExprModel::List(xs) => "("@ + expr_list_text(xs) + ")"@,
        ExprModel::Number(n) => int_text(n),
        ExprModel::String(s) => s,
        ExprModel::Symbol(s) => s,
        ExprModel::Nil => "NIL"@,
        ExprModel::Func(_) => "FUNCTION"@,
        ExprModel::Lambda(_, _) => "LAMBDA"@,
        ExprModel::True => "T"@,
    }
}

/// The display text of a list's children, joined by single spaces.
pub open spec fn expr_list_text(xs: Seq<ExprModel>) -> Seq<char>
    decreases xs,
{
    if xs.len() == 0 {
        Seq::empty()
    } else if xs.len() == 1 {
        expr_text(xs[0])
    } else {
        expr_list_text(xs.drop_last()) + " "@ + expr_text(xs.last())
    }
}

/// Structural equality: defined for `Symbol`, `Number`, `String`, `List`
/// and `Nil`; every other comparison is `false`.
pub open spec fn loose_eq(a: ExprModel, b: ExprModel) -> bool
    decreases a,
{
    match (a, b) {
        (ExprModel::Symbol(x), ExprModel::Symbol(y)) => x == y,
        (ExprModel::Number(x), ExprModel::Number(y)) => x == y,
        (ExprModel::String(x), ExprModel::String(y)) => x == y,
        (ExprModel::List(x), ExprModel::List(y)) => x.len() == y.len() && (forall|i: int|
            0 <= i < x.len() ==> loose_eq(#[trigger] x[i], y[i])),
        (ExprModel::Nil, ExprModel::Nil) => true,
        _ => false,
    }
}

fn push_expr_text(e: &Expr, out: &mut Vec<char>)
    ensures
        final(out)@ == old(out)@ + expr_text(e@),
    decreases e.size(),
{
    match e {
        Expr::Number(n) => {
            push_int_text(out, *n);
        },
        Expr::String(s) => {
            push_str_chars(out, s.as_str());
        },
        Expr::Symbol(s) => {
            push_str_chars(out, s.as_str());
        },
        Expr::Nil => {
            push_str_chars(out, "NIL");
        },
        Expr::Func(_) => {
            push_str_chars(out, "FUNCTION");
        },
        Expr::Lambda(_) => {
            push_str_chars(out, "LAMBDA");
        },
        Expr::True => {
            push_str_chars(out, "T");
        },
        Expr::List(v) => {
            let ghost base = out@;
            proof {
                reveal_strlit("(");
                reveal_strlit(")");
                reveal_strlit(" ");
            }
            out.push('(');
            assert(out@ =~= base + "("@);
            let mut i: usize = 0;
            proof {
                Expr::model_seq_index(v@);
                assert(Expr::model_seq(v@).subrange(0, 0) =~= Seq::<ExprModel>::empty());
            }
            while i < v.len()
                invariant
                    e.size() == 1 + Expr::size_seq(v@),
                    i <= v@.len(),
                    Expr::model_seq(v@).len() == v@.len(),
                    forall|j: int|
                        0 <= j < v@.len() ==> Expr::model_seq(v@)[j] == #[trigger] v@[j].model(),
                    out@ == base + "("@ + expr_list_text(Expr::model_seq(v@).subrange(0, i as int)),
                decreases v@.len() - i,
            {
                proof {
                    reveal_strlit("(");
                    reveal_strlit(")");
                    reveal_strlit(" ");
                    Expr::lemma_size_elem(v@, i as int);
                }
                if i > 0 {
                    out.push(' ');
                }
                let ghost pre = out@;
                push_expr_text(&v[i], out);
                proof {
                    let ms = Expr::model_seq(v@);
                    let k = i as int;
                    assert(ms.subrange(0, k + 1).drop_last() =~= ms.subrange(0, k));
                    assert(ms.subrange(0, k + 1).last() == v@[k].model());
                    if i == 0 {
                        assert(expr_list_text(ms.subrange(0, 1)) == expr_text(ms.subrange(0, 1)[0]));
                        assert(out@ =~= base + "("@ + expr_list_text(ms.subrange(0, k + 1)));
                    } else {
                        assert(expr_list_text(ms.subrange(0, k + 1)) == expr_list_text(
                            ms.subrange(0, k),
                        ) + " "@ + expr_text(v@[k].model()));
                        assert(out@ =~= base + "("@ + expr_list_text(ms.subrange(0, k + 1)));
                    }
                }
                i = i + 1;
            }
            out.push(')');
            proof {
                reveal_strlit("(");
                reveal_strlit(")");
                reveal_strlit(" ");
                assert(Expr::model_seq(v@).subrange(0, v@.len() as int) =~= Expr::model_seq(v@));
                assert(out@ =~= base + expr_text(e@));
            }
        },
    }
}

/// Relies on `Rc::clone`: the returned pointer shares the same value.
#[verifier::external_body]
fn rc_clone_expr(r: &Rc<Expr>) -> (res: Rc<Expr>)
    ensures
        res == *r,
{
    Rc::clone(r)
}

fn clone_strings(v: &Vec<String>) -> (r: Vec<String>)
    ensures
        r.deep_view() == v.deep_view(),
{
    let mut r: Vec<String> = Vec::new();
    let mut i: usize = 0;
    while i < v.len()
        invariant
            i <= v@.len(),
            r@.len() == i,
            forall|j: int| 0 <= j < i ==> r@[j]@ == #[trigger] v@[j]@,
        decreases v@.len() - i,
    {
        r.push(v[i].clone());
        i = i + 1;
    }
    proof {
        assert(r.deep_view() =~= v.deep_view());
    }
    r
}

impl Expr {
    /// Renders the expression as its display text: lists as
    /// `(child child ...)`, `Nil` as `NIL`, `True` as `T`, callables as the
    /// placeholder words `FUNCTION` and `LAMBDA`.
    pub fn render(&self) -> (r: String)
        ensures
            r@ == expr_text(self@),
    {
        let mut out: Vec<char> = Vec::new();
        push_expr_text(self, &mut out);
        string_from_chars(out.as_slice())
    }

    /// A value equal to this one in every model; lambda bodies stay shared.
    pub fn duplicate(&self) -> (r: Expr)
        ensures
            r@ == self@,
        decreases self.size(),
    {
        match self {
            Expr::Number(n) => Expr::Number(*n),
            Expr::String(s) => Expr::String(s.clone()),
            Expr::Symbol(s) => Expr::Symbol(s.clone()),
            Expr::True => Expr::True,
            Expr::Nil => Expr::Nil,
            Expr::Func(b) => Expr::Func(*b),
            Expr::Lambda(l) => Expr::Lambda(
                Lambda { args: clone_strings(&l.args), body: rc_clone_expr(&l.body) },
            ),
            Expr::List(v) => {
                let mut r: Vec<Expr> = Vec::new();
                let mut i: usize = 0;
                proof {
                    Expr::model_seq_index(v@);
                }
                while i < v.len()
                    invariant
                        self.size() == 1 + Expr::size_seq(v@),
                        i <= v@.len(),
                        r@.len() == i,
                        forall|j: int|
                            0 <= j < v@.len() ==> Expr::model_seq(v@)[j] == #[trigger] v@[j].model(),
                        forall|j: int| 0 <= j < i ==> r@[j].model() == #[trigger] v@[j].model(),
                    decreases v@.len() - i,
                {
                    proof {
                        Expr::lemma_size_elem(v@, i as int);
                    }
                    let d = v[i].duplicate();
                    r.push(d);
                    i = i + 1;
                }
                proof {
                    Expr::model_seq_index(r@);
                    assert forall|j: int|
                        0 <= j < v@.len() implies Expr::model_seq(r@)[j] == Expr::model_seq(
                        v@,
                    )[j] by {
                        assert(r@[j].model() == v@[j].model());
                    }
                    assert(Expr::model_seq(r@) =~= Expr::model_seq(v@));
                }
                Expr::List(r)
            },
        }
    }

    /// Structural equality on the models of the two expressions.
    pub fn value_eq(&self, other: &Expr) -> (r: bool)
        ensures
            r == loose_eq(self@, other@),
        decreases self.size(),
    {
        match (self, other) {
            (Expr::Symbol(a), Expr::Symbol(b)) => *a == *b,
            (Expr::Number(a), Expr::Number(b)) => *a == *b,
            (Expr::String(a), Expr::String(b)) => *a == *b,
            (Expr::Nil, Expr::Nil) => true,
            (Expr::List(a), Expr::List(b)) => {
                proof {
                    Expr::model_seq_index(a@);
                    Expr::model_seq_index(b@);
                }
                if a.len() != b.len() {
                    return false;
                }
                let mut i: usize = 0;
                while i < a.len()
                    invariant
                        self.size() == 1 + Expr::size_seq(a@),
                        other@ == ExprModel::List(Expr::model_seq(b@)),
                        self@ == ExprModel::List(Expr::model_seq(a@)),
                        a@.len() == b@.len(),
                        i <= a@.len(),
                        forall|j: int|
                            0 <= j < a@.len() ==> Expr::model_seq(a@)[j] == #[trigger] a@[j].model(),
                        forall|j: int|
                            0 <= j < b@.len() ==> Expr::model_seq(b@)[j] == #[trigger] b@[j].model(),
                        forall|j: int| 0 <= j < i ==> loose_eq(#[trigger] a@[j].model(), b@[j].model()),
                    decreases a@.len() - i,
                {
                    proof {
                        Expr::lemma_size_elem(a@, i as int);
                    }
                    if !a[i].value_eq(&b[i]) {
                        proof {
                            Expr::model_seq_index(a@);
                            Expr::model_seq_index(b@);
                            let x = Expr::model_seq(a@);
                            let y = Expr::model_seq(b@);
                            assert(x[i as int] == a@[i as int].model());
                            assert(y[i as int] == b@[i as int].model());
                            assert(!loose_eq(x[i as int], y[i as int]));
                        }
                        return false;
                    }
                    i = i + 1;
                }
                proof {
                    Expr::model_seq_index(a@);
                    Expr::model_seq_index(b@);
                    let x = Expr::model_seq(a@);
                    let y = Expr::model_seq(b@);
                    assert forall|j: int| 0 <= j < x.len() implies loose_eq(#[trigger] x[j], y[j]) by {
                        assert(loose_eq(a@[j].model(), b@[j].model()));
                    }
                    assert(loose_eq(self@, other@));
                }
                true
            },
            _ => false,
        }
    }

    /// Whether this expression is the `Nil` constant.
    pub fn is_nil(&self) -> (r: bool)
        ensures
            r == (self@ == ExprModel::Nil),
    {
        match self {
            Expr::Nil => true,
            _ => false,
        }
    }
}

} // verus!
