use vstd::prelude::*;

use crate::ast::{expr_text, Builtin, Expr, ExprErr, ExprModel, Lambda};
use crate::chars::push_str_chars;
use std::rc::Rc;

use crate::lexer::Lexer;
use crate::parser::{spec_parse, Parser};

verus! {

/// The mathematical shape of an environment: a map from symbol name to
/// value shape.  A later binding for a name overwrites the earlier one.
pub type EnvModel = Map<Seq<char>, ExprModel>;

/// The map bound by an ordered run of (name, value) entries: each entry
/// overwrites any earlier binding of its name.
pub open spec fn map_of_entries(s: Seq<(Seq<char>, ExprModel)>) -> EnvModel
    decreases s.len(),
{
    if s.len() == 0 {
        Map::empty()
    } else {
        map_of_entries(s.drop_last()).insert(s.last().0, s.last().1)
    }
}

pub proof fn lemma_map_of_found(s: Seq<(Seq<char>, ExprModel)>, k: Seq<char>, i: int)
    requires
        0 <= i < s.len(),
        s[i].0 == k,
        forall|j: int| i < j < s.len() ==> (#[trigger] s[j]).0 != k,
    ensures
        map_of_entries(s).contains_key(k),
        map_of_entries(s)[k] == s[i].1,
    decreases s.len(),
{
    if i == s.len() - 1 {
    } else {
        lemma_map_of_found(s.drop_last(), k, i);
    }
}

pub proof fn lemma_map_of_absent(s: Seq<(Seq<char>, ExprModel)>, k: Seq<char>)
    requires
        forall|j: int| 0 <= j < s.len() ==> (#[trigger] s[j]).0 != k,
    ensures
        !map_of_entries(s).contains_key(k),
    decreases s.len(),
{
    if s.len() > 0 {
        lemma_map_of_absent(s.drop_last(), k);
    }
}

/// The name-to-value environment.  The entries are an ordered history of
/// bindings; the map they bind, with later entries overwriting earlier
/// ones, is the environment's meaning, so each name has at most one
/// binding in the map.
pub struct ExprEnv {
    entries: Vec<(String, Expr)>,
}

impl View for ExprEnv {
    type V = EnvModel;

    closed spec fn view(&self) -> EnvModel {
        map_of_entries(self.entry_models())
    }
}

impl ExprEnv {
    pub closed spec fn entry_models(&self) -> Seq<(Seq<char>, ExprModel)> {
        Seq::new(self.entries@.len(), |i: int| (self.entries@[i].0@, self.entries@[i].1.model()))
    }

    pub fn new() -> (r: ExprEnv)
        ensures
            r@ == Map::<Seq<char>, ExprModel>::empty(),
    {
        let r = ExprEnv { entries: Vec::new() };
        proof {
            assert(r.entry_models() =~= Seq::<(Seq<char>, ExprModel)>::empty());
        }
        r
    }

    /// The value bound to `name`, if any: the latest binding wins.
    pub fn lookup(&self, name: &String) -> (r: Option<&Expr>)
        ensures
            match r {
                Some(e) => self@.contains_key(name@) && e@ == self@[name@],
                None => !self@.contains_key(name@),
            },
    {
        let ghost s = self.entry_models();
        let mut i = self.entries.len();
        while i > 0
            invariant
                i <= self.entries@.len(),
                s == self.entry_models(),
                s.len() == self.entries@.len(),
                forall|j: int| i <= j < s.len() ==> (#[trigger] s[j]).0 != name@,
            decreases i,
        {
            i = i - 1;
            if self.entries[i].0 == *name {
                proof {
                    lemma_map_of_found(s, name@, i as int);
                }
                return Some(&self.entries[i].1);
            }
        }
        proof {
            lemma_map_of_absent(s, name@);
        }
        None
    }

    /// Binds `name` to `value`, overwriting any existing binding.
    pub fn insert(&mut self, name: String, value: Expr)
        ensures
            final(self)@ == old(self)@.insert(name@, value@),
    {
        let ghost s = old(self).entry_models();
        self.entries.push((name, value));
        proof {
            assert(self.entry_models().drop_last() =~= s);
            assert(self@ =~= old(self)@.insert(name@, value@));
        }
    }

    /// A full copy: same map, bindings evaluated against either behave alike.
    pub fn duplicate(&self) -> (r: ExprEnv)
        ensures
            r@ == self@,
    {
        let mut entries: Vec<(String, Expr)> = Vec::new();
        let mut i: usize = 0;
        while i < self.entries.len()
            invariant
                i <= self.entries@.len(),
                entries@.len() == i,
                forall|j: int|
                    0 <= j < i ==> (#[trigger] entries@[j]).0@ == self.entries@[j].0@
                        && entries@[j].1.model() == self.entries@[j].1.model(),
            decreases self.entries@.len() - i,
        {
            let name = self.entries[i].0.clone();
            let value = self.entries[i].1.duplicate();
            entries.push((name, value));
            i = i + 1;
        }
        let r = ExprEnv { entries };
        proof {
            assert(r.entry_models() =~= self.entry_models());
        }
        r
    }

    /// Each bound name as `name=value`, space separated.  A name that was
    /// rebound appears once, with its latest value.
    fn render_entries(&self) -> (r: String)
    {
        let mut out: Vec<char> = Vec::new();
        let mut first = true;
        let mut i: usize = 0;
        while i < self.entries.len()
            invariant
                i <= self.entries@.len(),
            decreases self.entries@.len() - i,
        {
            let mut shadowed = false;
            let mut j: usize = i + 1;
            while j < self.entries.len()
                invariant
                    i < j <= self.entries@.len(),
                decreases self.entries@.len() - j,
            {
                if self.entries[j].0 == self.entries[i].0 {
                    shadowed = true;
                }
                j = j + 1;
            }
            if !shadowed {
                if !first {
                    out.push(' ');
                }
                first = false;
                push_str_chars(&mut out, self.entries[i].0.as_str());
                out.push('=');
                push_str_chars(&mut out, self.entries[i].1.render().as_str());
            }
            i = i + 1;
        }
        crate::chars::string_from_chars(out.as_slice())
    }
}

/// The map seeding every fresh session: the four arithmetic operator names
/// bound to their built-ins.
pub open spec fn default_env_model() -> EnvModel {
    Map::empty().insert("+"@, ExprModel::Func(Builtin::Add)).insert(
        "-"@,
        ExprModel::Func(Builtin::Sub),
    ).insert("*"@, ExprModel::Func(Builtin::Mul)).insert("/"@, ExprModel::Func(Builtin::Div))
}

/// A fresh global environment with the four built-ins bound.
pub fn default_env() -> (r: ExprEnv)
    ensures
        r@ == default_env_model(),
{
    let mut env = ExprEnv::new();
    env.insert(String::from_str("+"), Expr::Func(Builtin::Add));
    env.insert(String::from_str("-"), Expr::Func(Builtin::Sub));
    env.insert(String::from_str("*"), Expr::Func(Builtin::Mul));
    env.insert(String::from_str("/"), Expr::Func(Builtin::Div));
    env
}

pub open spec fn setq_text() -> Seq<char> {
    seq!['S', 'E', 'T', 'Q']
}

pub open spec fn defun_text() -> Seq<char> {
    seq!['D', 'E', 'F', 'U', 'N']
}

pub open spec fn in_i64(v: int) -> bool {
    -0x8000_0000_0000_0000 <= v <= 0x7fff_ffff_ffff_ffff
}

/// Division truncating toward zero, as 64-bit machine division does.
pub open spec fn trunc_div(a: int, b: int) -> int {
    let q: int = vstd::math::abs(a) as int / vstd::math::abs(b) as int;
    if (a < 0) != (b < 0) {
        -q
    } else {
        q
    }
}

/// One fold step of a built-in.  Arithmetic is checked: a result outside
/// the 64-bit range fails, as does division by zero.
pub open spec fn apply_op(op: Builtin, a: int, b: int) -> Result<int, ()> {
    match op {
        Builtin::Add => if in_i64(a + b) {
            Ok(a + b)
        } else {
            Err(())
        },
        Builtin::Sub => if in_i64(a - b) {
            Ok(a - b)
        } else {
            Err(())
        },
        Builtin::Mul => if in_i64(a * b) {
            Ok(a * b)
        } else {
            Err(())
        },
        Builtin::Div => if b == 0 {
            Err(())
        } else if in_i64(trunc_div(a, b)) {
            Ok(trunc_div(a, b))
        } else {
            Err(())
        },
    }
}

/// Left-to-right fold of a built-in over the remaining operands.
pub open spec fn fold_op(op: Builtin, acc: int, xs: Seq<int>) -> Result<int, ()>
    decreases xs.len(),
{
    if xs.len() == 0 {
        Ok(acc)
    } else {
        match apply_op(op, acc, xs[0]) {
            Err(e) => Err(e),
            Ok(v) => fold_op(op, v, xs.drop_first()),
        }
    }
}

/// The numeric values of the arguments; fails if any is not a number.
pub open spec fn numbers_of(vals: Seq<ExprModel>) -> Result<Seq<int>, ()>
    decreases vals.len(),
{
    if vals.len() == 0 {
        Ok(Seq::empty())
    } else {
        match vals[0] {
            ExprModel::Number(n) => match numbers_of(vals.drop_first()) {
                Ok(rest) => Ok(seq![n] + rest),
                Err(e) => Err(e),
            },
            _ => Err(()),
        }
    }
}

/// What a built-in returns on evaluated arguments: every argument must be
/// a number and there must be at least one; `(op a b c)` computes
/// `((a op b) op c)`.
pub open spec fn spec_apply_builtin(op: Builtin, vals: Seq<ExprModel>) -> Result<ExprModel, ()> {
    match numbers_of(vals) {
        Err(e) => Err(e),
        Ok(nums) => if nums.len() == 0 {
            Err(())
        } else {
            match fold_op(op, nums[0], nums.drop_first()) {
                Ok(v) => Ok(ExprModel::Number(v)),
                Err(e) => Err(e),
            }
        },
    }
}

/// The local overlay of a call: the caller's environment with each
/// parameter bound, left to right, to its evaluated argument.
pub open spec fn bind_params(env: EnvModel, params: Seq<Seq<char>>, vals: Seq<ExprModel>) -> EnvModel
    recommends
        params.len() == vals.len(),
    decreases params.len(),
{
    if params.len() == 0 {
        env
    } else {
        bind_params(env.insert(params[0], vals[0]), params.drop_first(), vals.drop_first())
    }
}

/// The parameter names of a lambda's parameter list; fails on any
/// element that is not a symbol.
pub open spec fn params_of(l: Seq<ExprModel>) -> Result<Seq<Seq<char>>, ()>
    decreases l.len(),
{
    if l.len() == 0 {
        Ok(Seq::empty())
    } else {
        match l[0] {
            ExprModel::Symbol(s) => match params_of(l.drop_first()) {
                Ok(r) => Ok(seq![s] + r),
                Err(e) => Err(e),
            },
            _ => Err(()),
        }
    }
}

/// `DEFUN`: exactly three arguments — a name symbol, a parameter list of
/// symbols, and a body kept unevaluated.  Binds the name to the lambda and
/// returns the name as a string.
pub open spec fn spec_eval_defun(args: Seq<ExprModel>, env: EnvModel) -> (Result<ExprModel, ()>,
    EnvModel,
) {
    if args.len() != 3 {
        (Err(()), env)
    } else {
        match args[0] {
            ExprModel::Symbol(name) => match args[1] {
                ExprModel::List(ps) => match params_of(ps) {
                    Ok(params) => (
                        Ok(ExprModel::String(name)),
                        env.insert(name, ExprModel::Lambda(params, Box::new(args[2]))),
                    ),
                    Err(e) => (Err(e), env),
                },
                _ => (Err(()), env),
            },
            _ => (Err(()), env),
        }
    }
}

/// `SETQ`: a symbol and a value expression; evaluates the value against
/// the current environment, binds the symbol to it in place, and returns
/// it.  Extra arguments are ignored.
pub open spec fn spec_eval_setq(args: Seq<ExprModel>, env: EnvModel, depth: nat) -> (Result<
    ExprModel,
    (),
>, EnvModel)
    decreases depth, args, 0int,
{
    if args.len() < 1 {
        (Err(()), env)
    } else {
        match args[0] {
            ExprModel::Symbol(key) => {
                if args.len() < 2 {
                    (Err(()), env)
                } else {
                    let (rv, env1) = spec_eval(args[1], env, depth);
                    match rv {
                        Err(e) => (Err(e), env1),
                        Ok(v) => (Ok(v), env1.insert(key, v)),
                    }
                }
            },
            _ => (Err(()), env),
        }
    }
}

/// Dispatch of the two special forms, matched by literal uppercase name
/// before any evaluation; `None` means ordinary application applies.
pub open spec fn spec_eval_builtin(
    first: ExprModel,
    args: Seq<ExprModel>,
    env: EnvModel,
    depth: nat,
) -> Option<(Result<ExprModel, ()>, EnvModel)>
    decreases depth, args, 1int,
{
    if first == ExprModel::Symbol(setq_text()) {
        Some(spec_eval_setq(args, env, depth))
    } else if first == ExprModel::Symbol(defun_text()) {
        Some(spec_eval_defun(args, env))
    } else {
        None
    }
}

/// Evaluation of the argument expressions of a call, left to right, each
/// against the environment as the previous one left it.
pub open spec fn spec_eval_args(args: Seq<ExprModel>, env: EnvModel, depth: nat) -> (Result<
    Seq<ExprModel>,
    (),
>, EnvModel)
    decreases depth, args, 1int,
{
    if args.len() == 0 {
        (Ok(Seq::empty()), env)
    } else {
        let (r0, env1) = spec_eval(args[0], env, depth);
        match r0 {
            Err(e) => (Err(e), env1),
            Ok(v) => {
                let (rr, env2) = spec_eval_args(args.drop_first(), env1, depth);
                match rr {
                    Err(e) => (Err(e), env2),
                    Ok(vs) => (Ok(seq![v] + vs), env2),
                }
            },
        }
    }
}

/// An argument list evaluates, when it succeeds, to exactly one value
/// per argument.
pub proof fn lemma_spec_eval_args_len(args: Seq<ExprModel>, env: EnvModel, depth: nat)
    ensures
        ({
            let (r, env2) = spec_eval_args(args, env, depth);
            r matches Ok(vs) ==> vs.len() == args.len()
        }),
    decreases args.len(),
{
    if args.len() > 0 {
        let (r0, env1) = spec_eval(args[0], env, depth);
        match r0 {
            Ok(_) => {
                lemma_spec_eval_args_len(args.drop_first(), env1, depth);
            },
            Err(_) => {},
        }
    }
}

/// A lambda call: the argument count must match the parameter count
/// exactly; the arguments are evaluated against the caller's environment;
/// the body is evaluated against a full copy of that environment with the
/// parameters bound on top, and the copy is discarded afterwards — only
/// the argument evaluation's effects reach the caller.  Each nested call
/// spends one unit of `depth`; at zero the call fails rather than recurse.
pub open spec fn spec_eval_lambda(
    params: Seq<Seq<char>>,
    body: ExprModel,
    args: Seq<ExprModel>,
    env: EnvModel,
    depth: nat,
) -> (Result<ExprModel, ()>, EnvModel)
    decreases depth, args, 2int,
{
    if params.len() != args.len() {
        (Err(()), env)
    } else {
        let (ra, env2) = spec_eval_args(args, env, depth);
        match ra {
            Err(e) => (Err(e), env2),
            Ok(vals) => if depth == 0 {
                (Err(()), env2)
            } else {
                let local = bind_params(env2, params, vals);
                (spec_eval(body, local, (depth - 1) as nat).0, env2)
            },
        }
    }
}

/// One evaluation step against an environment.  Atoms are self-evaluating;
/// symbols resolve by lookup; a non-empty list is a special form or an
/// application; `Func` and `Lambda` values are not themselves expressions.
/// The returned environment carries every binding made on the way, also
/// when the result is a failure.
pub open spec fn spec_eval(e: ExprModel, env: EnvModel, depth: nat) -> (Result<ExprModel, ()>,
    EnvModel,
)
    decreases depth, e, 0int,
{
    match e {
        ExprModel::String(_) => (Ok(e), env),
        ExprModel::Number(_) => (Ok(e), env),
        ExprModel::Nil => (Ok(e), env),
        ExprModel::True => (Ok(e), env),
        ExprModel::Symbol(s) => if env.contains_key(s) {
            (Ok(env[s]), env)
        } else {
            (Err(()), env)
        },
        ExprModel::List(l) => {
            if l.len() == 0 {
                (Err(()), env)
            } else {
                match spec_eval_builtin(l[0], l.drop_first(), env, depth) {
                    Some(out) => out,
                    None => {
                        let (rf, env1) = spec_eval(l[0], env, depth);
                        match rf {
                            Err(e) => (Err(e), env1),
                            Ok(f) => match f {
                                ExprModel::Func(op) => {
                                    let (ra, env2) = spec_eval_args(l.drop_first(), env1, depth);
                                    match ra {
                                        Err(e) => (Err(e), env2),
                                        Ok(vals) => (spec_apply_builtin(op, vals), env2),
                                    }
                                },
                                ExprModel::Lambda(params, body) => spec_eval_lambda(
                                    params,
                                    *body,
                                    l.drop_first(),
                                    env1,
                                    depth,
                                ),
                                _ => (Err(()), env1),
                            },
                        }
                    },
                }
            }
        },
        ExprModel::Func(_) => (Err(()), env),
        ExprModel::Lambda(_, _) => (Err(()), env),
    }
}

pub open spec fn ints_of(s: Seq<i64>) -> Seq<int> {
    s.map_values(|x: i64| x as int)
}

/// 64-bit division truncating toward zero.
fn div_trunc(a: i64, b: i64) -> (r: i64)
    requires
        b != 0,
        !(a == i64::MIN && b == -1),
    ensures
        r as int == trunc_div(a as int, b as int),
{
    proof {
        assert(vstd::math::abs(a as int) as int / 1int == vstd::math::abs(a as int));
    }
    if b == 1 {
        return a;
    }
    if b == -1 {
        return -a;
    }
    let ma: u64 = if a == i64::MIN {
        0x8000_0000_0000_0000u64
    } else if a < 0 {
        (-a) as u64
    } else {
        a as u64
    };
    let mb: u64 = if b == i64::MIN {
        0x8000_0000_0000_0000u64
    } else if b < 0 {
        (-b) as u64
    } else {
        b as u64
    };
    proof {
        assert(ma as int == vstd::math::abs(a as int));
        assert(mb as int == vstd::math::abs(b as int));
        assert(mb >= 2);
    }
    let q: u64 = ma / mb;
    proof {
        vstd::arithmetic::div_mod::lemma_fundamental_div_mod(ma as int, mb as int);
        vstd::arithmetic::div_mod::lemma_remainder_lower(ma as int, mb as int);
        assert(mb as int * (q as int) <= ma as int);
        assert(q as int <= 0x4000_0000_0000_0000) by (nonlinear_arith)
            requires
                mb as int * (q as int) <= ma as int,
                mb as int >= 2,
                ma as int <= 0x8000_0000_0000_0000,
                q as int >= 0,
        ;
    }
    if (a < 0) != (b < 0) {
        -(q as i64)
    } else {
        q as i64
    }
}

/// The numeric values of the arguments; any other expression shape is a
/// type error naming the offending value.
fn parse_list_of_numbers(args: &[Expr]) -> (r: Result<Vec<i64>, ExprErr>)
    ensures
        match r {
            Ok(v) => numbers_of(Expr::model_seq(args@)) == Ok::<Seq<int>, ()>(ints_of(v@)),
            Err(_) => numbers_of(Expr::model_seq(args@)) is Err,
        },
    decreases args@.len(),
{
    proof {
        Expr::model_seq_index(args@);
    }
    if args.len() == 0 {
        let v: Vec<i64> = Vec::new();
        proof {
            assert(Expr::model_seq(args@) =~= Seq::<ExprModel>::empty());
            assert(ints_of(v@) =~= Seq::<int>::empty());
        }
        return Ok(v);
    }
    let first = vstd::slice::slice_index_get(args, 0);
    match first {
        Expr::Number(n) => {
            let rest = vstd::slice::slice_subrange(args, 1, args.len());
            proof {
                assert(rest@ =~= args@.drop_first());
                assert(Expr::model_seq(args@).drop_first() =~= Expr::model_seq(rest@));
            }
            match parse_list_of_numbers(rest) {
                Ok(v) => {
                    let ghost vseq = v@;
                    let mut v = v;
                    v.insert(0, *n);
                    proof {
                        assert(v@ =~= seq![*n] + vseq);
                        assert(ints_of(v@) =~= seq![*n as int] + ints_of(vseq));
                    }
                    Ok(v)
                },
                Err(e) => Err(e),
            }
        },
        _ => {
            let mut msg = first.render();
            msg.append(" is not number");
            Err(ExprErr::Cause(msg))
        },
    }
}

/// The names of a parameter list; any element that is not a symbol is a
/// type error naming the offending value.
fn parse_list_of_symbols(args: &[Expr]) -> (r: Result<Vec<String>, ExprErr>)
    ensures
        match r {
            Ok(v) => params_of(Expr::model_seq(args@)) == Ok::<Seq<Seq<char>>, ()>(v.deep_view()),
            Err(_) => params_of(Expr::model_seq(args@)) is Err,
        },
    decreases args@.len(),
{
    proof {
        Expr::model_seq_index(args@);
    }
    if args.len() == 0 {
        let v: Vec<String> = Vec::new();
        proof {
            assert(Expr::model_seq(args@) =~= Seq::<ExprModel>::empty());
            assert(v.deep_view() =~= Seq::<Seq<char>>::empty());
        }
        return Ok(v);
    }
    let first = vstd::slice::slice_index_get(args, 0);
    match first {
        Expr::Symbol(s) => {
            let rest = vstd::slice::slice_subrange(args, 1, args.len());
            proof {
                assert(rest@ =~= args@.drop_first());
                assert(Expr::model_seq(args@).drop_first() =~= Expr::model_seq(rest@));
            }
            match parse_list_of_symbols(rest) {
                Ok(v) => {
                    let ghost vdeep = v.deep_view();
                    let mut v = v;
                    v.insert(0, s.clone());
                    proof {
                        assert(v.deep_view() =~= seq![s@] + vdeep);
                    }
                    Ok(v)
                },
                Err(e) => Err(e),
            }
        },
        _ => {
            let mut msg = first.render();
            msg.append(" is not symbol");
            Err(ExprErr::Cause(msg))
        },
    }
}

/// Runs one of the four built-ins over its evaluated arguments.
fn apply_builtin(op: Builtin, vals: &Vec<Expr>) -> (r: Result<Expr, ExprErr>)
    ensures
        match r {
            Ok(v) => spec_apply_builtin(op, Expr::model_seq(vals@)) matches Ok(m) && v@ == m,
            Err(_) => spec_apply_builtin(op, Expr::model_seq(vals@)) is Err,
        },
{
    let nums = match parse_list_of_numbers(vals.as_slice()) {
        Ok(n) => n,
        Err(e) => {
            return Err(e);
        },
    };
    if nums.len() == 0 {
        return Err(ExprErr::Cause(String::from_str("expected at least one number")));
    }
    let ghost ints = ints_of(nums@);
    let mut acc: i64 = nums[0];
    let mut i: usize = 1;
    proof {
        assert(ints.subrange(1, ints.len() as int) =~= ints.drop_first());
    }
    while i < nums.len()
        invariant
            1 <= i <= nums@.len(),
            ints == ints_of(nums@),
            numbers_of(Expr::model_seq(vals@)) == Ok::<Seq<int>, ()>(ints),
            ints.len() == nums@.len(),
            forall|j: int| 0 <= j < ints.len() ==> ints[j] == nums@[j] as int,
            fold_op(op, ints[0], ints.drop_first()) == fold_op(
                op,
                acc as int,
                ints.subrange(i as int, ints.len() as int),
            ),
        decreases nums@.len() - i,
    {
        let b = nums[i];
        proof {
            let tail = ints.subrange(i as int, ints.len() as int);
            assert(tail[0] == b as int);
            assert(tail.drop_first() =~= ints.subrange(i as int + 1, ints.len() as int));
        }
        match op {
            Builtin::Add => {
                let wide: i128 = acc as i128 + b as i128;
                if wide < -0x8000_0000_0000_0000i128 || wide > 0x7fff_ffff_ffff_ffffi128 {
                    return Err(ExprErr::Cause(String::from_str("arithmetic overflow")));
                }
                acc = wide as i64;
            },
            Builtin::Sub => {
                let wide: i128 = acc as i128 - b as i128;
                if wide < -0x8000_0000_0000_0000i128 || wide > 0x7fff_ffff_ffff_ffffi128 {
                    return Err(ExprErr::Cause(String::from_str("arithmetic overflow")));
                }
                acc = wide as i64;
            },
            Builtin::Mul => {
                proof {
                    assert(-0x4000_0000_0000_0000_0000_0000_0000_0000 <= acc as int * b as int
                        <= 0x4000_0000_0000_0000_0000_0000_0000_0000) by (nonlinear_arith)
                        requires
                            -0x8000_0000_0000_0000 <= acc as int <= 0x7fff_ffff_ffff_ffff,
                            -0x8000_0000_0000_0000 <= b as int <= 0x7fff_ffff_ffff_ffff,
                    ;
                }
                let wide: i128 = acc as i128 * b as i128;
                if wide < -0x8000_0000_0000_0000i128 || wide > 0x7fff_ffff_ffff_ffffi128 {
                    return Err(ExprErr::Cause(String::from_str("arithmetic overflow")));
                }
                acc = wide as i64;
            },
            Builtin::Div => {
                if b == 0 {
                    return Err(ExprErr::Cause(String::from_str("division by zero")));
                }
                if acc == i64::MIN && b == -1 {
                    proof {
                        assert(vstd::math::abs(acc as int) == 0x8000_0000_0000_0000);
                        assert(vstd::math::abs(b as int) == 1);
                        assert(0x8000_0000_0000_0000int / 1int == 0x8000_0000_0000_0000int);
                    }
                    return Err(ExprErr::Cause(String::from_str("arithmetic overflow")));
                }
                acc = div_trunc(acc, b);
            },
        }
        i = i + 1;
    }
    proof {
        assert(ints.subrange(i as int, ints.len() as int) =~= Seq::<int>::empty());
    }
    Ok(Expr::Number(acc))
}

/// The evaluation depth budget: each nested lambda call spends one unit,
/// and a call with none left is reported as an error rather than allowed
/// to exhaust the machine stack.
pub const EVAL_DEPTH: u64 = 256;

/// The tree-walking evaluator.
pub struct Evaluator {}

impl Evaluator {
    pub fn new() -> (r: Evaluator) {
        Evaluator {  }
    }

    fn eval_rec(&mut self, expr: &Expr, env: &mut ExprEnv, depth: u64) -> (r: Result<
        Expr,
        ExprErr,
    >)
        ensures
            ({
                let (sr, senv) = spec_eval(expr@, old(env)@, depth as nat);
                &&& final(env)@ == senv
                &&& match r {
                    Ok(v) => sr matches Ok(m) && v@ == m,
                    Err(_) => sr is Err,
                }
            }),
        decreases depth, expr.size(), 0nat,
    {
        match expr {
            Expr::String(_) => Ok(expr.duplicate()),
            Expr::Number(_) => Ok(expr.duplicate()),
            Expr::Nil => Ok(expr.duplicate()),
            Expr::True => Ok(expr.duplicate()),
            Expr::Symbol(sym) => match env.lookup(sym) {
                Some(e) => Ok(e.duplicate()),
                None => {
                    let mut msg = String::from_str("not found symbol: ");
                    msg.append(sym.as_str());
                    msg.append(", env: ");
                    msg.append(env.render_entries().as_str());
                    Err(ExprErr::Cause(msg))
                },
            },
            Expr::List(list) => {
                proof {
                    Expr::model_seq_index(list@);
                }
                if list.len() == 0 {
                    return Err(ExprErr::Cause(String::from_str("expected at least one number")));
                }
                let first = &list[0];
                let rest = vstd::slice::slice_subrange(list.as_slice(), 1, list.len());
                proof {
                    assert(rest@ =~= list@.drop_first());
                    assert(Expr::model_seq(rest@) =~= Expr::model_seq(list@).drop_first());
                    assert(expr.size() == 1 + Expr::size_seq(list@));
                    assert(Expr::size_seq(list@) == list@[0].size() + Expr::size_seq(
                        list@.drop_first(),
                    ));
                    Expr::lemma_size_elem(list@, 0);
                }
                match self.eval_builtin_rec(first, rest, env, depth) {
                    Some(res) => res,
                    None => {
                        let f = match self.eval_rec(first, env, depth) {
                            Ok(f) => f,
                            Err(e) => {
                                return Err(e);
                            },
                        };
                        match f {
                            Expr::Func(op) => {
                                let vals = match self.eval_args_rec(rest, env, depth) {
                                    Ok(v) => v,
                                    Err(e) => {
                                        return Err(e);
                                    },
                                };
                                apply_builtin(op, &vals)
                            },
                            Expr::Lambda(lambda) => self.eval_lambda_rec(lambda, rest, env, depth),
                            _ => {
                                let mut msg = String::from_str("invalid expr: ");
                                msg.append(f.render().as_str());
                                Err(ExprErr::Cause(msg))
                            },
                        }
                    },
                }
            },
            Expr::Func(_) => {
                let mut msg = String::from_str("invalid expr: ");
                msg.append(expr.render().as_str());
                Err(ExprErr::Cause(msg))
            },
            Expr::Lambda(_) => {
                let mut msg = String::from_str("invalid expr: ");
                msg.append(expr.render().as_str());
                Err(ExprErr::Cause(msg))
            },
        }
    }

    fn eval_args_rec(&mut self, args: &[Expr], env: &mut ExprEnv, depth: u64) -> (r: Result<
        Vec<Expr>,
        ExprErr,
    >)
        ensures
            ({
                let (sr, senv) = spec_eval_args(Expr::model_seq(args@), old(env)@, depth as nat);
                &&& final(env)@ == senv
                &&& match r {
                    Ok(vs) => sr matches Ok(ms) && Expr::model_seq(vs@) == ms,
                    Err(_) => sr is Err,
                }
            }),
        decreases depth, Expr::size_seq(args@), 1nat,
    {
        proof {
            Expr::model_seq_index(args@);
        }
        if args.len() == 0 {
            let vs: Vec<Expr> = Vec::new();
            proof {
                assert(Expr::model_seq(args@) =~= Seq::<ExprModel>::empty());
                assert(Expr::model_seq(vs@) =~= Seq::<ExprModel>::empty());
            }
            return Ok(vs);
        }
        let first = vstd::slice::slice_index_get(args, 0);
        proof {
            Expr::lemma_size_elem(args@, 0);
        }
        let v = match self.eval_rec(first, env, depth) {
            Ok(v) => v,
            Err(e) => {
                return Err(e);
            },
        };
        let rest = vstd::slice::slice_subrange(args, 1, args.len());
        proof {
            assert(rest@ =~= args@.drop_first());
            assert(Expr::model_seq(rest@) =~= Expr::model_seq(args@).drop_first());
            assert(Expr::size_seq(args@) == args@[0].size() + Expr::size_seq(args@.drop_first()));
            assert(args@[0].size() >= 1);
        }
        let vs = match self.eval_args_rec(rest, env, depth) {
            Ok(v) => v,
            Err(e) => {
                return Err(e);
            },
        };
        let ghost vsseq = vs@;
        let mut vs = vs;
        vs.insert(0, v);
        proof {
            Expr::model_seq_index(vs@);
            Expr::model_seq_index(vsseq);
            assert(Expr::model_seq(vs@) =~= seq![v.model()] + Expr::model_seq(vsseq));
        }
        Ok(vs)
    }

    fn eval_builtin_rec(
        &mut self,
        first: &Expr,
        args: &[Expr],
        env: &mut ExprEnv,
        depth: u64,
    ) -> (r: Option<Result<Expr, ExprErr>>)
        ensures
            ({
                let sb = spec_eval_builtin(first@, Expr::model_seq(args@), old(env)@, depth as nat);
                match r {
                    Some(res) => sb matches Some(out) && final(env)@ == out.1 && (match res {
                        Ok(v) => out.0 matches Ok(m) && v@ == m,
                        Err(_) => out.0 is Err,
                    }),
                    None => sb is None && final(env)@ == old(env)@,
                }
            }),
        decreases depth, Expr::size_seq(args@), 2nat,
    {
        match first {
            Expr::Symbol(symbol) => {
                proof {
                    reveal_strlit("SETQ");
                    reveal_strlit("DEFUN");
                    assert("SETQ"@ =~= setq_text());
                    assert("DEFUN"@ =~= defun_text());
                }
                if *symbol == String::from_str("SETQ") {
                    Some(self.eval_setq_rec(args, env, depth))
                } else if *symbol == String::from_str("DEFUN") {
                    Some(self.eval_defun(args, env))
                } else {
                    None
                }
            },
            _ => None,
        }
    }

    fn eval_setq_rec(&mut self, args: &[Expr], env: &mut ExprEnv, depth: u64) -> (r: Result<
        Expr,
        ExprErr,
    >)
        ensures
            ({
                let (sr, senv) = spec_eval_setq(Expr::model_seq(args@), old(env)@, depth as nat);
                &&& final(env)@ == senv
                &&& match r {
                    Ok(v) => sr matches Ok(m) && v@ == m,
                    Err(_) => sr is Err,
                }
            }),
        decreases depth, Expr::size_seq(args@), 0nat,
    {
        proof {
            Expr::model_seq_index(args@);
        }
        if args.len() == 0 {
            return Err(ExprErr::Cause(String::from_str("expected first arg")));
        }
        let first = vstd::slice::slice_index_get(args, 0);
        let key = match first {
            Expr::Symbol(s) => s.clone(),
            _ => {
                return Err(ExprErr::Cause(String::from_str("first arg must be symbol")));
            },
        };
        if args.len() < 2 {
            return Err(ExprErr::Cause(String::from_str("expected second arg")));
        }
        let second = vstd::slice::slice_index_get(args, 1);
        proof {
            Expr::lemma_size_elem(args@.drop_first(), 0);
            assert(args@.drop_first()[0] == args@[1]);
            assert(Expr::size_seq(args@) == args@[0].size() + Expr::size_seq(args@.drop_first()));
            assert(args@[0].size() >= 1);
        }
        let value = match self.eval_rec(second, env, depth) {
            Ok(v) => v,
            Err(e) => {
                return Err(e);
            },
        };
        env.insert(key, value.duplicate());
        Ok(value)
    }

    /// `DEFUN`: binds the named lambda in the current environment and
    /// returns the function name as a printable string.
    pub fn eval_defun(&mut self, args: &[Expr], env: &mut ExprEnv) -> (r: Result<Expr, ExprErr>)
        ensures
            ({
                let (sr, senv) = spec_eval_defun(Expr::model_seq(args@), old(env)@);
                &&& final(env)@ == senv
                &&& match r {
                    Ok(v) => sr matches Ok(m) && v@ == m,
                    Err(_) => sr is Err,
                }
            }),
    {
        proof {
            Expr::model_seq_index(args@);
        }
        if args.len() != 3 {
            return Err(ExprErr::Cause(String::from_str("unexpected function definition")));
        }
        let symbol = vstd::slice::slice_index_get(args, 0);
        let name = match symbol {
            Expr::Symbol(s) => s,
            _ => {
                let mut msg = String::from_str("invalid symbol: ");
                msg.append(symbol.render().as_str());
                return Err(ExprErr::Cause(msg));
            },
        };
        let args_expr = vstd::slice::slice_index_get(args, 1);
        let params = match args_expr {
            Expr::List(list) => match parse_list_of_symbols(list.as_slice()) {
                Ok(p) => p,
                Err(e) => {
                    return Err(e);
                },
            },
            _ => {
                let mut msg = String::from_str("invalid list: ");
                msg.append(args_expr.render().as_str());
                return Err(ExprErr::Cause(msg));
            },
        };
        let body = vstd::slice::slice_index_get(args, 2);
        let lambda = Expr::Lambda(Lambda { args: params, body: Rc::new(body.duplicate()) });
        env.insert(name.clone(), lambda);
        Ok(Expr::String(name.clone()))
    }

    fn eval_lambda_rec(
        &mut self,
        lambda: Lambda,
        outer_args: &[Expr],
        env: &mut ExprEnv,
        depth: u64,
    ) -> (r: Result<Expr, ExprErr>)
        ensures
            ({
                let (sr, senv) = spec_eval_lambda(
                    lambda.args.deep_view(),
                    lambda.body@,
                    Expr::model_seq(outer_args@),
                    old(env)@,
                    depth as nat,
                );
                &&& final(env)@ == senv
                &&& match r {
                    Ok(v) => sr matches Ok(m) && v@ == m,
                    Err(_) => sr is Err,
                }
            }),
        decreases depth, Expr::size_seq(outer_args@), 2nat,
    {
        let ghost params = lambda.args.deep_view();
        proof {
            Expr::model_seq_index(outer_args@);
        }
        if lambda.args.len() != outer_args.len() {
            return Err(
                ExprErr::Cause(String::from_str("number of args and lambda's arg is not same")),
            );
        }
        let vals = match self.eval_args_rec(outer_args, env, depth) {
            Ok(v) => v,
            Err(e) => {
                return Err(e);
            },
        };
        if depth == 0 {
            return Err(ExprErr::Cause(String::from_str("evaluation depth exceeded")));
        }
        let ghost valsm = Expr::model_seq(vals@);
        let ghost env2m = env@;
        let mut local_env = env.duplicate();
        let mut i: usize = 0;
        proof {
            lemma_spec_eval_args_len(
                Expr::model_seq(outer_args@),
                old(env)@,
                depth as nat,
            );
            Expr::model_seq_index(vals@);
            assert(params.subrange(0, params.len() as int) =~= params);
            assert(valsm.subrange(0, valsm.len() as int) =~= valsm);
        }
        while i < lambda.args.len()
            invariant
                i <= lambda.args@.len(),
                lambda.args@.len() == vals@.len(),
                params == lambda.args.deep_view(),
                params.len() == lambda.args@.len(),
                valsm == Expr::model_seq(vals@),
                valsm.len() == vals@.len(),
                forall|j: int| 0 <= j < vals@.len() ==> valsm[j] == #[trigger] vals@[j].model(),
                bind_params(env2m, params, valsm) == bind_params(
                    local_env@,
                    params.subrange(i as int, params.len() as int),
                    valsm.subrange(i as int, valsm.len() as int),
                ),
            decreases lambda.args@.len() - i,
        {
            let name = lambda.args[i].clone();
            let value = vals[i].duplicate();
            proof {
                let ps = params.subrange(i as int, params.len() as int);
                let vs = valsm.subrange(i as int, valsm.len() as int);
                assert(ps[0] == params[i as int]);
                assert(vs[0] == valsm[i as int]);
                assert(ps.drop_first() =~= params.subrange(i as int + 1, params.len() as int));
                assert(vs.drop_first() =~= valsm.subrange(i as int + 1, valsm.len() as int));
            }
            local_env.insert(name, value);
            i = i + 1;
        }
        proof {
            assert(params.subrange(params.len() as int, params.len() as int) =~= Seq::<
                Seq<char>,
            >::empty());
            assert(valsm.subrange(valsm.len() as int, valsm.len() as int) =~= Seq::<
                ExprModel,
            >::empty());
        }
        match self.eval_rec(&lambda.body, &mut local_env, depth - 1) {
            Ok(result) => Ok(result),
            Err(e) => Err(e),
        }
    }

    /// Evaluates one expression tree against the environment, to the
    /// default depth budget.
    pub fn eval(&mut self, expr: &Expr, env: &mut ExprEnv) -> (r: Result<Expr, ExprErr>)
        ensures
            ({
                let (sr, senv) = spec_eval(expr@, old(env)@, EVAL_DEPTH as nat);
                &&& final(env)@ == senv
                &&& match r {
                    Ok(v) => sr matches Ok(m) && v@ == m,
                    Err(_) => sr is Err,
                }
            }),
    {
        self.eval_rec(expr, env, EVAL_DEPTH)
    }

    /// Evaluates each argument expression left to right against the
    /// environment as the previous one left it.
    pub fn eval_args(&mut self, args: &[Expr], env: &mut ExprEnv) -> (r: Result<Vec<Expr>, ExprErr>)
        ensures
            ({
                let (sr, senv) = spec_eval_args(
                    Expr::model_seq(args@),
                    old(env)@,
                    EVAL_DEPTH as nat,
                );
                &&& final(env)@ == senv
                &&& match r {
                    Ok(vs) => sr matches Ok(ms) && Expr::model_seq(vs@) == ms,
                    Err(_) => sr is Err,
                }
            }),
    {
        self.eval_args_rec(args, env, EVAL_DEPTH)
    }

    /// Dispatches the two special forms; `None` means `first` heads an
    /// ordinary application.
    pub fn eval_builtin(&mut self, first: &Expr, args: &[Expr], env: &mut ExprEnv) -> (r: Option<
        Result<Expr, ExprErr>,
    >)
        ensures
            ({
                let sb = spec_eval_builtin(
                    first@,
                    Expr::model_seq(args@),
                    old(env)@,
                    EVAL_DEPTH as nat,
                );
                match r {
                    Some(res) => sb matches Some(out) && final(env)@ == out.1 && (match res {
                        Ok(v) => out.0 matches Ok(m) && v@ == m,
                        Err(_) => out.0 is Err,
                    }),
                    None => sb is None && final(env)@ == old(env)@,
                }
            }),
    {
        self.eval_builtin_rec(first, args, env, EVAL_DEPTH)
    }

    /// Calls a lambda: checks the arity, evaluates the arguments against
    /// the caller's environment, and evaluates the body against a
    /// discarded copy with the parameters bound.
    pub fn eval_lambda(&mut self, lambda: Lambda, outer_args: &[Expr], env: &mut ExprEnv) -> (r:
        Result<Expr, ExprErr>)
        ensures
            ({
                let (sr, senv) = spec_eval_lambda(
                    lambda.args.deep_view(),
                    lambda.body@,
                    Expr::model_seq(outer_args@),
                    old(env)@,
                    EVAL_DEPTH as nat,
                );
                &&& final(env)@ == senv
                &&& match r {
                    Ok(v) => sr matches Ok(m) && v@ == m,
                    Err(_) => sr is Err,
                }
            }),
    {
        self.eval_lambda_rec(lambda, outer_args, env, EVAL_DEPTH)
    }

    /// `SETQ`: evaluates the value expression and binds the symbol to the
    /// result in the current environment, returning the value.
    pub fn eval_setq(&mut self, args: &[Expr], env: &mut ExprEnv) -> (r: Result<Expr, ExprErr>)
        ensures
            ({
                let (sr, senv) = spec_eval_setq(
                    Expr::model_seq(args@),
                    old(env)@,
                    EVAL_DEPTH as nat,
                );
                &&& final(env)@ == senv
                &&& match r {
                    Ok(v) => sr matches Ok(m) && v@ == m,
                    Err(_) => sr is Err,
                }
            }),
    {
        self.eval_setq_rec(args, env, EVAL_DEPTH)
    }
}

/// The outcome of one input line against an environment: the parsed
/// expression's evaluation, or a failure leaving the environment as it
/// was when the line does not parse.
pub open spec fn spec_line_outcome(text: Seq<char>, env: EnvModel, depth: nat) -> (Result<
    ExprModel,
    (),
>, EnvModel) {
    let (pr, _) = spec_parse(text, 0);
    match pr {
        Ok(m) => spec_eval(m, env, depth),
        Err(_) => (Err(()), env),
    }
}

/// Parses and evaluates one line of source text, returning the rendering
/// of the result, or the error's descriptive message on any failure.  One
/// bad line never aborts a session: the environment is left exactly as
/// the line's evaluation left it, and the next line evaluates against it.
pub fn eval_line(evaluator: &mut Evaluator, env: &mut ExprEnv, line: &str) -> (r: String)
    ensures
        ({
            let (lr, senv) = spec_line_outcome(line@, old(env)@, EVAL_DEPTH as nat);
            &&& final(env)@ == senv
            &&& (lr matches Ok(v) ==> r@ == expr_text(v))
        }),
{
    let l = Lexer::new(String::from_str(line));
    let mut p = Parser::new(l);
    match p.parse() {
        Ok(expr) => match evaluator.eval(&expr, env) {
            Ok(result) => result.render(),
            Err(e) => e.message(),
        },
        Err(e) => e.message(),
    }
}

/// One line's outcome — parse, evaluate, bind — is a mathematical function
/// of the line's text and of the environment's map alone.  Two sessions
/// whose environments bind the same map give the same result and the same
/// next map, so the result of any valid input is deterministic and stable
/// across repeated runs from a fresh environment.
pub proof fn lemma_line_outcome_deterministic(
    text: Seq<char>,
    env1: EnvModel,
    env2: EnvModel,
    depth: nat,
)
    requires
        env1 == env2,
    ensures
        spec_line_outcome(text, env1, depth) == spec_line_outcome(text, env2, depth),
{
}

/// Evaluating a symbol that the environment does not bind always yields a
/// reported error — never a value, and never a change to the environment.
/// (That the executable evaluator cannot panic on any input is part of
/// its verification.)
pub proof fn lemma_unknown_symbol_is_error(name: Seq<char>, env: EnvModel, depth: nat)
    requires
        !env.contains_key(name),
    ensures
        spec_eval(ExprModel::Symbol(name), env, depth).0 is Err,
        spec_eval(ExprModel::Symbol(name), env, depth).1 == env,
{
}

/// A successful `SETQ` leaves its name bound to the value it returns,
/// whatever the name was bound to before: a second assignment to the same
/// name overwrites the first.
pub proof fn lemma_setq_overwrites(args: Seq<ExprModel>, env: EnvModel, depth: nat, name: Seq<char>)
    requires
        args.len() >= 2,
        args[0] == ExprModel::Symbol(name),
    ensures
        ({
            let (r, env2) = spec_eval_setq(args, env, depth);
            r matches Ok(v) ==> env2.contains_key(name) && env2[name] == v
        }),
{
}

pub open spec fn is_atom(e: ExprModel) -> bool {
    ||| e is Number
    ||| e is String
    ||| e is Nil
    ||| e is True
}

/// Evaluating self-evaluating arguments makes no binding.
pub proof fn lemma_eval_args_atoms(args: Seq<ExprModel>, env: EnvModel, depth: nat)
    requires
        forall|i: int| 0 <= i < args.len() ==> is_atom(#[trigger] args[i]),
    ensures
        spec_eval_args(args, env, depth).1 == env,
    decreases args.len(),
{
    if args.len() > 0 {
        let (r0, env1) = spec_eval(args[0], env, depth);
        lemma_eval_args_atoms(args.drop_first(), env1, depth);
    }
}

/// Scoping isolation: a lambda call reaches the caller's environment only
/// through the evaluation of its argument expressions — the bindings made
/// for and during the body live in a discarded copy.  When every argument
/// is a literal value the caller's environment is left exactly unchanged,
/// shadowed names included.
pub proof fn lemma_lambda_call_isolated(
    params: Seq<Seq<char>>,
    body: ExprModel,
    args: Seq<ExprModel>,
    env: EnvModel,
    depth: nat,
)
    ensures
        ({
            let (r, env2) = spec_eval_lambda(params, body, args, env, depth);
            env2 == if params.len() == args.len() {
                spec_eval_args(args, env, depth).1
            } else {
                env
            }
        }),
        (forall|i: int| 0 <= i < args.len() ==> is_atom(#[trigger] args[i])) ==> spec_eval_lambda(
            params,
            body,
            args,
            env,
            depth,
        ).1 == env,
{
    if forall|i: int| 0 <= i < args.len() ==> is_atom(#[trigger] args[i]) {
        lemma_eval_args_atoms(args, env, depth);
    }
}

} // verus!
