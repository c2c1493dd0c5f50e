//! Values that evaluation makes: their forms, and the terms they stand for.
use crate::ctx::{NameCache, TcCtx};
use crate::judge::{is_named, Theory};
use crate::laws::{red, red_all, red_app, red_apps, red_proj};
use crate::ptr::{BigUintPtr, ExprPtr, LevelPtr, LevelsPtr, NamePtr, StringPtr};
use crate::work::fires;
use crate::tree::{all_closed, apps, loose, subst, BinderStyle, Nm, Tm};
use vstd::prelude::*;

verus! {

/// A pointer to a value, with the term it stands for.
pub struct V {
    pub idx: usize,
    pub tm: Ghost<Tm>,
}

impl Clone for V {
    fn clone(&self) -> (r: Self)
        ensures
            r == *self,
    {
        *self
    }
}

impl Copy for V {

}

impl View for V {
    type V = Tm;

    open spec fn view(&self) -> Tm {
        self.tm@
    }
}

/// A pointer to an environment, with the terms it holds, the innermost last.
pub struct E {
    pub idx: usize,
    pub tms: Ghost<Seq<Tm>>,
}

impl Clone for E {
    fn clone(&self) -> (r: Self)
        ensures
            r == *self,
    {
        *self
    }
}

impl Copy for E {

}

impl View for E {
    type V = Seq<Tm>;

    open spec fn view(&self) -> Seq<Tm> {
        self.tms@
    }
}

/// What is done to a term: it is applied, or projected from.
pub enum El {
    App(Tm),
    Proj(Nm, nat),
}

/// A pointer to a spine, with what is done in it, in order.
pub struct S {
    pub idx: usize,
    pub els: Ghost<Seq<El>>,
}

impl Clone for S {
    fn clone(&self) -> (r: Self)
        ensures
            r == *self,
    {
        *self
    }
}

impl Copy for S {

}

impl View for S {
    type V = Seq<El>;

    open spec fn view(&self) -> Seq<El> {
        self.els@
    }
}

/// The term that one more thing is done to.
pub open spec fn elim_tm(t: Tm, e: El) -> Tm {
    match e {
        El::App(a) => Tm::App(Box::new(t), Box::new(a)),
        El::Proj(n, i) => Tm::Proj(n, i, Box::new(t)),
    }
}

/// The term that everything in a spine is done to.
pub open spec fn spine_tm(t: Tm, es: Seq<El>) -> Tm
    decreases es.len(),
{
    if es.len() == 0 {
        t
    } else {
        elim_tm(spine_tm(t, es.drop_last()), es.last())
    }
}

/// Everything in the spine is an application.
pub open spec fn all_apps(es: Seq<El>) -> bool {
    forall|i: int| 0 <= i < es.len() ==> (#[trigger] es[i]) is App
}

/// The arguments in a spine.
pub open spec fn spine_args(es: Seq<El>) -> Seq<Tm> {
    Seq::new(es.len(), |i: int| es[i]->App_0)
}

/// A spine of applications is an application to several arguments.
pub proof fn spine_of_apps(t: Tm, es: Seq<El>)
    requires
        all_apps(es),
    ensures
        spine_tm(t, es) == apps(t, spine_args(es)),
    decreases es.len(),
{
    if es.len() > 0 {
        let p = es.drop_last();
        assert forall|i: int| 0 <= i < p.len() implies (#[trigger] p[i]) is App by {
            assert(es[i] is App);
        }
        spine_of_apps(t, p);
        assert(es[es.len() - 1] is App);
        assert(spine_args(es).drop_last() =~= spine_args(p));
    }
}

/// One more thing is done.
pub proof fn spine_push(t: Tm, es: Seq<El>, e: El)
    ensures
        spine_tm(t, es.push(e)) == elim_tm(spine_tm(t, es), e),
{
    assert(es.push(e).drop_last() =~= es);
}

/// The arguments in a spine are closed.
pub open spec fn els_closed(es: Seq<El>) -> bool {
    forall|i: int| 0 <= i < es.len() ==> (#[trigger] es[i] matches El::App(a) ==> loose(a) == 0)
}

/// Closed things are done to a closed term.
pub proof fn spine_closed(t: Tm, es: Seq<El>)
    requires
        loose(t) == 0,
        els_closed(es),
    ensures
        loose(spine_tm(t, es)) == 0,
    decreases es.len(),
{
    if es.len() > 0 {
        let p = es.drop_last();
        assert forall|i: int| 0 <= i < p.len() implies (#[trigger] p[i] matches El::App(a) ==> loose(
            a,
        ) == 0) by {
            assert(es[i] matches El::App(a) ==> loose(a) == 0);
        }
        spine_closed(t, p);
        assert(es[es.len() - 1] matches El::App(a) ==> loose(a) == 0);
    }
}

/// What is done to a value.
#[derive(Clone, Copy)]
pub enum Elim {
    App(V),
    Proj { ty_name: NamePtr, idx: usize },
}

impl Elim {
    /// What is done, as a term.
    pub open spec fn el(self) -> El {
        match self {
            Elim::App(v) => El::App(v@),
            Elim::Proj { ty_name, idx } => El::Proj(ty_name@, idx as nat),
        }
    }

    /// Whether it is an application.
    pub fn is_app(&self) -> (r: bool)
        ensures
            r == (self is App),
    {
        match self {
            Elim::App(_) => true,
            _ => false,
        }
    }
}

/// The head of a value that does not reduce at its head: a variable that evaluation made
/// up, a free variable, or a constant.
#[derive(Clone, Copy)]
pub enum RigidHead {
    BVar(u32, V),
    Local(ExprPtr),
    Axiom(NamePtr, LevelsPtr),
    Ctor(NamePtr, LevelsPtr),
    Recursor(NamePtr, LevelsPtr),
    QuotConst(NamePtr, LevelsPtr),
    Inductive(NamePtr, LevelsPtr),
}

impl RigidHead {
    /// The term that the head is.
    pub open spec fn tm(self) -> Tm {
        match self {
            RigidHead::BVar(l, ty) => Tm::Free(l as nat, Box::new(ty@)),
            RigidHead::Local(e) => e@,
            RigidHead::Axiom(n, ls) => Tm::Const(n@, ls@),
            RigidHead::Ctor(n, ls) => Tm::Const(n@, ls@),
            RigidHead::Recursor(n, ls) => Tm::Const(n@, ls@),
            RigidHead::QuotConst(n, ls) => Tm::Const(n@, ls@),
            RigidHead::Inductive(n, ls) => Tm::Const(n@, ls@),
        }
    }
}

/// The evaluation of the term may be put off.
pub open spec fn waits(t: Tm) -> bool {
    t is App || t is Pi || t is Lam || t is Let || t is Proj
}

/// The term is a variable, a constant, a universe, a literal or a function.
pub open spec fn simple(t: Tm) -> bool {
    t is Sort || t is NatLit || t is StrLit || t is Const || t is Local || t is Lam
}

/// The name is that of the type of a literal.
pub open spec fn lit_type_named(c: NameCache, n: Nm) -> bool {
    is_named(c.nat, n) || is_named(c.string, n)
}

/// The name is that of a constructor of the numbers or of the truth values.
pub open spec fn lit_ctor_named(c: NameCache, n: Nm) -> bool {
    ||| is_named(c.nat_zero, n)
    ||| is_named(c.nat_succ, n)
    ||| is_named(c.bool_true, n)
    ||| is_named(c.bool_false, n)
}

/// The constant is declared with a value that it unfolds to.
pub open spec fn valued(th: Theory, n: Nm) -> bool {
    th.decls.contains_key(n) && th.decls[n].value() is Some
}

/// The head is what its constant is declared as. The types of literals and the constructors
/// of numbers and of truth values need not be declared.
pub open spec fn head_known(th: Theory, h: RigidHead) -> bool {
    match h {
        RigidHead::BVar(_, _) => true,
        RigidHead::Local(_) => true,
        RigidHead::Axiom(n, _) => th.ctor_params(n@) is None && th.recursor(n@) is None
            && th.inductive(n@) is None && !th.is_quot(n@) && !valued(th, n@),
        RigidHead::Ctor(n, _) => th.ctor_params(n@) is Some || lit_ctor_named(th.names, n@),
        RigidHead::Recursor(n, _) => th.recursor(n@) is Some,
        RigidHead::QuotConst(n, _) => th.is_quot(n@),
        RigidHead::Inductive(n, _) => th.inductive(n@) is Some || lit_type_named(th.names, n@),
    }
}

/// A value. `domain`, `head_value` and `forced` are places where results are kept.
#[derive(Clone, Copy)]
#[allow(inconsistent_fields)]
pub enum Value {
    Sort { level: LevelPtr },
    NatLit { ptr: BigUintPtr },
    StrLit { ptr: StringPtr },
    Lam {
        binder_name: NamePtr,
        binder_style: BinderStyle,
        binder_type: ExprPtr,
        domain: usize,
        env: E,
        body: ExprPtr,
    },
    Pi { binder_name: NamePtr, binder_style: BinderStyle, domain: V, env: E, body: ExprPtr },
    Rigid { head: RigidHead, spine: S },
    Unfold { name: NamePtr, levels: LevelsPtr, spine: S, head_value: usize, forced: usize },
    Thunk { env: E, expr: ExprPtr, forced: usize },
}

impl Value {
    /// The term that the value stands for.
    pub open spec fn tree(self) -> Tm {
        match self {
            Value::Sort { level } => Tm::Sort(level@),
            Value::NatLit { ptr } => Tm::NatLit(ptr@),
            Value::StrLit { ptr } => Tm::StrLit(ptr@),
            Value::Lam { binder_name, binder_style, binder_type, env, body, .. } => Tm::Lam(
                binder_name@,
                binder_style,
                Box::new(subst(binder_type@, env@, 0)),
                Box::new(subst(body@, env@, 1)),
            ),
            Value::Pi { binder_name, binder_style, domain, env, body } => Tm::Pi(
                binder_name@,
                binder_style,
                Box::new(domain@),
                Box::new(subst(body@, env@, 1)),
            ),
            Value::Rigid { head, spine } => spine_tm(head.tm(), spine@),
            Value::Unfold { name, levels, spine, .. } => spine_tm(
                Tm::Const(name@, levels@),
                spine@,
            ),
            Value::Thunk { env, expr, .. } => subst(expr@, env@, 0),
        }
    }
}

/// The head of the value is what its constant is declared as.
pub open spec fn value_known(th: Theory, n: Value) -> bool {
    match n {
        Value::Rigid { head, .. } => head_known(th, head),
        Value::Unfold { name, .. } => valued(th, name@),
        _ => true,
    }
}

/// The term is a variable or a constant that things are done to.
pub open spec fn neutral(t: Tm) -> bool
    decreases t,
{
    match t {
        Tm::Const(_, _) | Tm::Local(_, _, _, _) | Tm::Free(_, _) => true,
        Tm::App(f, _) => neutral(*f),
        Tm::Proj(_, _, s) => neutral(*s),
        _ => false,
    }
}

/// The term has the form of a value: a universe, a literal, a function, a function type, or
/// a variable or constant that things are done to.
pub open spec fn evaluated(t: Tm) -> bool {
    ||| t is Sort
    ||| t is NatLit
    ||| t is StrLit
    ||| t is Lam
    ||| t is Pi
    ||| neutral(t)
}

/// Things that are done to a variable or a constant leave it one that things are done to.
pub proof fn spine_neutral(t: Tm, es: Seq<El>)
    requires
        neutral(t),
    ensures
        neutral(spine_tm(t, es)),
    decreases es.len(),
{
    if es.len() > 0 {
        spine_neutral(t, es.drop_last());
    }
}

/// What an environment is made of.
#[derive(Clone, Copy)]
pub enum EnvNode {
    Empty,
    Extend { parent: E, v: V },
}

impl EnvNode {
    /// The terms that the environment holds.
    pub open spec fn tms(self) -> Seq<Tm> {
        match self {
            EnvNode::Empty => Seq::empty(),
            EnvNode::Extend { parent, v } => parent@.push(v@),
        }
    }
}

/// What a spine is made of, with its length and whether there are projections in it.
#[derive(Clone, Copy)]
pub enum Spine {
    Empty,
    Snoc { prev: S, elim: Elim, len: u32, has_proj: bool },
}

impl Spine {
    /// What is done in the spine.
    pub open spec fn els(self) -> Seq<El> {
        match self {
            Spine::Empty => Seq::empty(),
            Spine::Snoc { prev, elim, .. } => prev@.push(elim.el()),
        }
    }

    /// What the spine says of its length and of projections is so.
    pub open spec fn info_ok(self) -> bool {
        match self {
            Spine::Empty => true,
            Spine::Snoc { len, has_proj, .. } => {
                &&& len == self.els().len()
                &&& has_proj == !all_apps(self.els())
            },
        }
    }
}

/// A place for a result: what was reduced, whether that takes a step at its head, and the
/// value it was reduced to.
#[derive(Clone, Copy)]
pub struct Cell {
    pub val: Option<V>,
    pub subject: Ghost<Tm>,
    pub fired: Ghost<bool>,
}

/// All values, environments, spines and places.
pub struct Vals {
    pub values: Vec<Value>,
    pub envs: Vec<EnvNode>,
    pub spines: Vec<Spine>,
    pub cells: Vec<Cell>,
}

impl Vals {
    /// The pointer is valid.
    pub closed spec fn has_val(self, v: V) -> bool {
        v.idx < self.values@.len() && self.values@[v.idx as int].tree() == v@
    }

    /// The pointer is valid, and evaluation of the value has begun.
    pub closed spec fn done(self, v: V) -> bool {
        self.has_val(v) && !(self.values@[v.idx as int] is Thunk)
    }

    /// The pointer is valid.
    pub closed spec fn has_env(self, e: E) -> bool {
        e.idx < self.envs@.len() && self.envs@[e.idx as int].tms() == e@
    }

    /// The pointer is valid.
    pub closed spec fn has_spine(self, s: S) -> bool {
        s.idx < self.spines@.len() && self.spines@[s.idx as int].els() == s@
    }

    /// The place is for results of reducing the term.
    pub closed spec fn has_cell(self, c: usize, t: Tm) -> bool {
        c < self.cells@.len() && self.cells@[c as int].subject@ == t && !self.cells@[c as int].fired@
    }

    /// The place is for results of reducing the term with a step at its head.
    pub closed spec fn has_fired(self, c: usize, t: Tm) -> bool {
        c < self.cells@.len() && self.cells@[c as int].subject@ == t && self.cells@[c as int].fired@
    }

    /// What the value is made of.
    pub closed spec fn node(self, v: V) -> Value {
        self.values@[v.idx as int]
    }

    /// A definition is at the head of the value.
    pub open spec fn is_unfold(self, v: V) -> bool {
        self.node(v) is Unfold
    }

    /// What the definition at the head of the value was found to unfold to.
    pub closed spec fn unfolding(self, v: V) -> Option<V> {
        match self.values@[v.idx as int] {
            Value::Unfold { forced, .. } => self.cells@[forced as int].val,
            _ => None,
        }
    }

    /// What the definition at the head of the value unfolds to is kept at the place.
    pub closed spec fn holds_at(self, v: V, c: usize) -> bool {
        self.values@[v.idx as int] matches Value::Unfold { forced, .. } && forced == c
    }

    /// What is kept at the place.
    pub closed spec fn kept(self, c: usize) -> Option<V> {
        self.cells@[c as int].val
    }

    /// Whatever is valid here is valid there, and what is remembered here is so there.
    pub open spec fn within(self, other: Self) -> bool {
        &&& forall|v: V| self.has_val(v) && self.unfolding(v) is Some ==> #[trigger] other.unfolding(v)
            == self.unfolding(v)
        &&& forall|v: V, c: usize|
            self.has_val(v) && self.holds_at(v, c) ==> #[trigger] other.holds_at(v, c)
        &&& forall|v: V| self.has_val(v) ==> #[trigger] other.node(v) == self.node(v)
        &&& forall|c: usize, t: Tm| self.has_fired(c, t) ==> #[trigger] other.has_fired(c, t)
        &&& forall|v: V| self.has_val(v) ==> #[trigger] other.has_val(v)
        &&& forall|v: V| self.done(v) ==> #[trigger] other.done(v)
        &&& forall|e: E| self.has_env(e) ==> #[trigger] other.has_env(e)
        &&& forall|s: S| self.has_spine(s) ==> #[trigger] other.has_spine(s)
        &&& forall|c: usize, t: Tm| self.has_cell(c, t) ==> #[trigger] other.has_cell(c, t)
    }

    /// Valid pointers are to one value exactly if their places are.
    pub proof fn vals_at(self, v: V, w: V)
        requires
            self.has_val(v),
            self.has_val(w),
            v.idx == w.idx,
        ensures
            v@ == w@,
    {
    }

    /// What a valid pointer is to is valid and known.
    pub proof fn node_ok(self, ctx: TcCtx, th: Theory, v: V)
        requires
            self.fit(ctx, th),
            self.has_val(v),
        ensures
            self.node(v).tree() == v@,
            self.node(v) is Thunk <==> !self.done(v),
            self.value_fits(ctx, self.node(v)),
            value_known(th, self.node(v)),
    {
    }

    /// Pointers to one place are to what is made of the same.
    pub proof fn nodes_at(self, v: V, w: V)
        requires
            v.idx == w.idx,
        ensures
            self.node(v) == self.node(w),
    {
    }

    /// Valid pointers are to one environment exactly if their places are.
    pub proof fn envs_at(self, v: E, w: E)
        requires
            self.has_env(v),
            self.has_env(w),
            v.idx == w.idx,
        ensures
            v@ == w@,
    {
    }

    /// Valid pointers are to one spine exactly if their places are.
    pub proof fn spines_at(self, v: S, w: S)
        requires
            self.has_spine(v),
            self.has_spine(w),
            v.idx == w.idx,
        ensures
            v@ == w@,
    {
    }

    /// What is done to a value is valid.
    pub open spec fn elim_fits(self, ctx: TcCtx, e: Elim) -> bool {
        match e {
            Elim::App(v) => self.has_val(v),
            Elim::Proj { ty_name, .. } => ctx.has_name(ty_name),
        }
    }

    /// The parts of the head are valid.
    pub open spec fn head_fits(self, ctx: TcCtx, h: RigidHead) -> bool {
        match h {
            RigidHead::BVar(_, ty) => self.has_val(ty),
            RigidHead::Local(e) => ctx.has_expr(e) && e@ is Local,
            RigidHead::Axiom(n, ls) => ctx.has_name(n) && ctx.has_levels(ls),
            RigidHead::Ctor(n, ls) => ctx.has_name(n) && ctx.has_levels(ls),
            RigidHead::Recursor(n, ls) => ctx.has_name(n) && ctx.has_levels(ls),
            RigidHead::QuotConst(n, ls) => ctx.has_name(n) && ctx.has_levels(ls),
            RigidHead::Inductive(n, ls) => ctx.has_name(n) && ctx.has_levels(ls),
        }
    }

    /// The parts of the value are valid.
    pub open spec fn value_fits(self, ctx: TcCtx, n: Value) -> bool {
        match n {
            Value::Sort { level } => ctx.has_level(level),
            Value::NatLit { ptr } => ctx.has_big(ptr),
            Value::StrLit { ptr } => ctx.has_string(ptr),
            Value::Lam { binder_name, binder_type, domain, env, body, .. } => {
                &&& ctx.has_name(binder_name)
                &&& ctx.has_expr(binder_type)
                &&& self.has_env(env)
                &&& ctx.has_expr(body)
                &&& loose(binder_type@) <= env@.len()
                &&& loose(body@) <= env@.len() + 1
                &&& self.has_cell(domain, subst(binder_type@, env@, 0))
            },
            Value::Pi { binder_name, domain, env, body, .. } => {
                &&& ctx.has_name(binder_name)
                &&& self.has_val(domain)
                &&& self.has_env(env)
                &&& ctx.has_expr(body)
                &&& loose(body@) <= env@.len() + 1
            },
            Value::Rigid { head, spine } => self.head_fits(ctx, head) && self.has_spine(spine),
            Value::Unfold { name, levels, spine, head_value, forced } => {
                &&& ctx.has_name(name)
                &&& ctx.has_levels(levels)
                &&& self.has_spine(spine)
                &&& self.has_cell(head_value, Tm::Const(name@, levels@))
                &&& self.has_fired(forced, n.tree())
            },
            Value::Thunk { env, expr, forced } => {
                &&& self.has_env(env)
                &&& ctx.has_expr(expr)
                &&& waits(expr@)
                &&& loose(expr@) <= env@.len()
                &&& self.has_cell(forced, n.tree())
            },
        }
    }

    /// Everything in it is valid and closed, and what is kept was reached by reduction.
    pub closed spec fn fit(self, ctx: TcCtx, th: Theory) -> bool {
        &&& forall|i: int|
            0 <= i < self.values@.len() ==> self.value_fits(ctx, #[trigger] self.values@[i])
                && loose(self.values@[i].tree()) == 0 && value_known(th, self.values@[i])
        &&& forall|i: int|
            0 <= i < self.envs@.len() ==> all_closed((#[trigger] self.envs@[i]).tms()) && (
            self.envs@[i] matches EnvNode::Extend { parent, v } ==> self.has_env(parent)
                && self.has_val(v))
        &&& forall|i: int|
            0 <= i < self.spines@.len() ==> els_closed((#[trigger] self.spines@[i]).els())
                && self.spines@[i].info_ok() && (self.spines@[i] matches Spine::Snoc {
                prev,
                elim,
                ..
            } ==> self.has_spine(prev) && self.elim_fits(ctx, elim))
        &&& forall|i: int|
            0 <= i < self.cells@.len() ==> (#[trigger] self.cells@[i].val matches Some(v)
                ==> self.done(v) && red(th, self.cells@[i].subject@, v@) && (self.cells@[i].fired@
                ==> fires(th, self.cells@[i].subject@, v@)))
    }

    /// Valid values are closed.
    pub proof fn val_closed(self, ctx: TcCtx, th: Theory, v: V)
        requires
            self.fit(ctx, th),
            self.has_val(v),
        ensures
            loose(v@) == 0,
    {
    }

    /// Valid environments hold closed terms.
    pub proof fn env_closed(self, ctx: TcCtx, th: Theory, e: E)
        requires
            self.fit(ctx, th),
            self.has_env(e),
        ensures
            all_closed(e@),
    {
    }

    /// Valid spines hold closed terms.
    pub proof fn spine_is_closed(self, ctx: TcCtx, th: Theory, s: S)
        requires
            self.fit(ctx, th),
            self.has_spine(s),
        ensures
            els_closed(s@),
    {
    }

    /// A value whose evaluation has begun has the form of a value.
    pub proof fn done_evaluated(self, ctx: TcCtx, th: Theory, v: V)
        requires
            self.fit(ctx, th),
            self.done(v),
        ensures
            evaluated(v@),
            self.has_val(v),
    {
        let n = self.values@[v.idx as int];
        assert(self.value_fits(ctx, n));
        match n {
            Value::Rigid { head, spine } => {
                spine_neutral(head.tm(), spine@);
            },
            Value::Unfold { name, levels, spine, .. } => {
                spine_neutral(Tm::Const(name@, levels@), spine@);
            },
            _ => {},
        }
    }

    /// A store with the empty environment and the empty spine.
    pub fn new() -> (r: Self)
        ensures
            forall|ctx: TcCtx, th: Theory| #[trigger] r.fit(ctx, th),
            r.has_env((E { idx: 0, tms: Ghost(Seq::empty()) })),
            r.has_spine((S { idx: 0, els: Ghost(Seq::empty()) })),
    {
        let mut envs: Vec<EnvNode> = Vec::new();
        envs.push(EnvNode::Empty);
        let mut spines: Vec<Spine> = Vec::new();
        spines.push(Spine::Empty);
        Vals { values: Vec::new(), envs, spines, cells: Vec::new() }
    }

    /// Reads a value.
    pub fn read(&self, v: V) -> (r: Value)
        requires
            self.has_val(v),
        ensures
            r.tree() == v@,
            !(r is Thunk) <==> self.done(v),
            forall|ctx: TcCtx, th: Theory| #[trigger]
                self.fit(ctx, th) ==> self.value_fits(ctx, r) && value_known(th, r),
            r matches Value::Unfold { forced, .. } ==> self.unfolding(v) == self.kept(forced),
            !(r is Unfold) ==> self.unfolding(v) is None,
            r == self.node(v),
            r matches Value::Unfold { forced, .. } ==> self.holds_at(v, forced),
    {
        self.values[v.idx]
    }

    /// Reads an environment.
    pub fn read_env(&self, e: E) -> (r: EnvNode)
        requires
            self.has_env(e),
        ensures
            r.tms() == e@,
            forall|ctx: TcCtx, th: Theory| #[trigger]
                self.fit(ctx, th) ==> (r matches EnvNode::Extend { parent, v } ==> self.has_env(
                    parent,
                ) && self.has_val(v)),
    {
        self.envs[e.idx]
    }

    /// Reads a spine.
    pub fn read_spine(&self, s: S) -> (r: Spine)
        requires
            self.has_spine(s),
        ensures
            r.els() == s@,
            forall|ctx: TcCtx, th: Theory| #[trigger]
                self.fit(ctx, th) ==> r.info_ok() && (r matches Spine::Snoc { prev, elim, .. }
                    ==> self.has_spine(prev) && self.elim_fits(ctx, elim)),
    {
        self.spines[s.idx]
    }

    /// Reads a place.
    pub fn read_cell(&self, c: usize, Ghost(t): Ghost<Tm>) -> (r: Option<V>)
        requires
            self.has_cell(c, t) || self.has_fired(c, t),
        ensures
            r == self.kept(c),
            r matches Some(v) ==> forall|ctx: TcCtx, th: Theory| #[trigger]
                self.fit(ctx, th) ==> self.done(v) && red(th, t, v@) && (self.has_fired(c, t)
                    ==> fires(th, t, v@)),
    {
        self.cells[c].val
    }

    /// Adds a value.
    pub fn push(&mut self, n: Value, Ghost(ctx): Ghost<TcCtx>, Ghost(th): Ghost<Theory>) -> (r: V)
        requires
            old(self).fit(ctx, th),
            old(self).value_fits(ctx, n),
            loose(n.tree()) == 0,
            value_known(th, n),
        ensures
            final(self).fit(ctx, th),
            old(self).within(*final(self)),
            final(self).has_val(r),
            r@ == n.tree(),
            !(n is Thunk) <==> final(self).done(r),
    {
        let idx: usize = self.values.len();
        self.values.push(n);
        V { idx, tm: Ghost(n.tree()) }
    }

    /// Adds an environment.
    pub fn push_env(&mut self, parent: E, v: V, Ghost(ctx): Ghost<TcCtx>, Ghost(th): Ghost<Theory>) -> (r: E)
        requires
            old(self).fit(ctx, th),
            old(self).has_env(parent),
            old(self).has_val(v),
        ensures
            final(self).fit(ctx, th),
            old(self).within(*final(self)),
            final(self).has_env(r),
            r@ == parent@.push(v@),
    {
        proof {
            self.val_closed(ctx, th, v);
            self.env_closed(ctx, th, parent);
            let all = parent@.push(v@);
            assert forall|i: int| 0 <= i < all.len() implies loose(#[trigger] all[i]) == 0 by {
                if i < parent@.len() {
                    assert(loose(parent@[i]) == 0);
                }
            }
        }
        let idx: usize = self.envs.len();
        self.envs.push(EnvNode::Extend { parent, v });
        E { idx, tms: Ghost(parent@.push(v@)) }
    }

    /// Adds a spine. There is none where it would be too long.
    pub fn push_spine(
        &mut self,
        prev: S,
        elim: Elim,
        Ghost(ctx): Ghost<TcCtx>,
        Ghost(th): Ghost<Theory>,
    ) -> (r: Option<S>)
        requires
            old(self).fit(ctx, th),
            old(self).has_spine(prev),
            old(self).elim_fits(ctx, elim),
        ensures
            final(self).fit(ctx, th),
            old(self).within(*final(self)),
            r is Some <==> prev@.len() < u32::MAX,
            r matches Some(s) ==> final(self).has_spine(s) && s@ == prev@.push(elim.el()),
    {
        let (before, had_proj): (u32, bool) = match self.read_spine(prev) {
            Spine::Empty => (0, false),
            Spine::Snoc { len, has_proj, .. } => (len, has_proj),
        };
        if before == 0xffff_ffff {
            return None;
        }
        let has_proj = had_proj || !elim.is_app();
        proof {
            self.spine_is_closed(ctx, th, prev);
            let all = prev@.push(elim.el());
            if let Elim::App(v) = elim {
                self.val_closed(ctx, th, v);
            }
            assert forall|i: int| 0 <= i < all.len() implies (#[trigger] all[i] matches El::App(a)
                ==> loose(a) == 0) by {
                if i < prev@.len() {
                    assert(prev@[i] matches El::App(a) ==> loose(a) == 0);
                }
            }
            if all_apps(all) {
                assert(all[prev@.len() as int] is App);
                assert forall|i: int| 0 <= i < prev@.len() implies (#[trigger] prev@[i]) is App by {
                    assert(all[i] is App);
                }
            }
            if !had_proj && elim is App {
                assert forall|i: int| 0 <= i < all.len() implies (#[trigger] all[i]) is App by {
                    if i < prev@.len() {
                        assert(prev@[i] is App);
                    }
                }
            }
        }
        let idx: usize = self.spines.len();
        self.spines.push(Spine::Snoc { prev, elim, len: before + 1, has_proj });
        Some(S { idx, els: Ghost(prev@.push(elim.el())) })
    }

    /// Adds a place for results of reducing a term.
    pub fn push_cell(&mut self, Ghost(t): Ghost<Tm>, Ghost(fired): Ghost<bool>, Ghost(ctx): Ghost<TcCtx>, Ghost(th): Ghost<Theory>) -> (r: usize)
        requires
            old(self).fit(ctx, th),
        ensures
            final(self).fit(ctx, th),
            old(self).within(*final(self)),
            !fired ==> final(self).has_cell(r, t),
            fired ==> final(self).has_fired(r, t),
    {
        let idx: usize = self.cells.len();
        self.cells.push(Cell { val: None, subject: Ghost(t), fired: Ghost(fired) });
        idx
    }

    /// Keeps a result, unless there is one, and gives what is kept.
    pub fn set_cell(
        &mut self,
        c: usize,
        v: V,
        Ghost(t): Ghost<Tm>,
        Ghost(ctx): Ghost<TcCtx>,
        Ghost(th): Ghost<Theory>,
    ) -> (r: V)
        requires
            old(self).fit(ctx, th),
            old(self).has_cell(c, t) || (old(self).has_fired(c, t) && fires(th, t, v@)),
            old(self).done(v),
            red(th, t, v@),
        ensures
            final(self).fit(ctx, th),
            old(self).within(*final(self)),
            final(self).kept(c) == Some(r),
            final(self).done(r) && red(th, t, r@) && (final(self).has_fired(c, t) ==> fires(th, t, r@)),
            forall|w: V| #[trigger] final(self).holds_at(w, c) ==> final(self).unfolding(w) == Some(r),
    {
        match self.cells[c].val {
            Some(w) => w,
            None => {
                let subject = self.cells[c].subject;
                let fired = self.cells[c].fired;
                self.cells.set(c, Cell { val: Some(v), subject, fired });
                v
            },
        }
    }
}

/// What is kept stays so in a context with more in it.
pub broadcast proof fn vals_fit_grows(c1: TcCtx, c2: TcCtx, vals: Vals, th: Theory)
    requires
        #[trigger] vals.fit(c1, th),
        #[trigger] c1.extended_by(c2),
    ensures
        vals.fit(c2, th),
{
}

/// A value whose evaluation has begun is valid.
pub broadcast proof fn done_valid(vals: Vals, v: V)
    requires
        #[trigger] vals.done(v),
    ensures
        vals.has_val(v),
{
}

/// The terms that values stand for.
pub open spec fn vtms(xs: Seq<V>) -> Seq<Tm> {
    Seq::new(xs.len(), |i: int| xs[i]@)
}

/// What is done by each of the list.
pub open spec fn elims(xs: Seq<Elim>) -> Seq<El> {
    Seq::new(xs.len(), |i: int| xs[i].el())
}

impl Vals {
    /// The pointers are valid.
    pub open spec fn has_vals(self, xs: Seq<V>) -> bool {
        forall|i: int| 0 <= i < xs.len() ==> self.has_val(#[trigger] xs[i])
    }

    /// The pointers are valid, and evaluation of the values has begun.
    pub open spec fn all_done(self, xs: Seq<V>) -> bool {
        forall|i: int| 0 <= i < xs.len() ==> self.done(#[trigger] xs[i])
    }
}

/// What is done in one spine reduces to what is done in another.
pub open spec fn els_red(th: Theory, es: Seq<El>, fs: Seq<El>) -> bool {
    &&& es.len() == fs.len()
    &&& forall|i: int|
        0 <= i < es.len() ==> match (#[trigger] es[i], fs[i]) {
            (El::App(a), El::App(b)) => red(th, a, b),
            (El::Proj(m, j), El::Proj(n, k)) => m == n && j == k,
            _ => false,
        }
}

/// What things are done to reduces as it does and as these do.
pub proof fn red_spine(th: Theory, t: Tm, u: Tm, es: Seq<El>, fs: Seq<El>)
    requires
        red(th, t, u),
        els_red(th, es, fs),
    ensures
        red(th, spine_tm(t, es), spine_tm(u, fs)),
    decreases es.len(),
{
    if es.len() > 0 {
        let p = es.drop_last();
        let q = fs.drop_last();
        assert(els_red(th, p, q)) by {
            assert forall|i: int| 0 <= i < p.len() implies match (#[trigger] p[i], q[i]) {
                (El::App(a), El::App(b)) => red(th, a, b),
                (El::Proj(m, j), El::Proj(n, k)) => m == n && j == k,
                _ => false,
            } by {
                assert(es[i] == p[i]);
            }
        }
        red_spine(th, t, u, p, q);
        let e = es[es.len() - 1];
        match (e, fs.last()) {
            (El::App(a), El::App(b)) => {
                red_app(th, spine_tm(t, p), spine_tm(u, q), a, b);
            },
            (El::Proj(m, j), El::Proj(n, k)) => {
                red_proj(th, m, j, spine_tm(t, p), spine_tm(u, q));
            },
            _ => {},
        }
    }
}

/// What is done in a spine reduces to itself.
pub proof fn els_red_refl(th: Theory, es: Seq<El>)
    ensures
        els_red(th, es, es),
{
    assert forall|i: int| 0 <= i < es.len() implies match (#[trigger] es[i], es[i]) {
        (El::App(a), El::App(b)) => red(th, a, b),
        (El::Proj(m, j), El::Proj(n, k)) => m == n && j == k,
        _ => false,
    } by {
        if let El::App(a) = es[i] {
            crate::laws::red_refl(th, a);
        }
    }
}

/// What things are done to reduces as it does.
pub proof fn red_spine_head(th: Theory, t: Tm, u: Tm, es: Seq<El>)
    requires
        red(th, t, u),
    ensures
        red(th, spine_tm(t, es), spine_tm(u, es)),
{
    els_red_refl(th, es);
    red_spine(th, t, u, es, es);
}

/// The first thing is done first.
pub proof fn spine_front(t: Tm, es: Seq<El>)
    requires
        es.len() > 0,
    ensures
        spine_tm(t, es) == spine_tm(elim_tm(t, es[0]), es.drop_first()),
    decreases es.len(),
{
    let rest = es.drop_first();
    if rest.len() == 0 {
        assert(es.drop_last() =~= Seq::<El>::empty());
        assert(rest =~= Seq::<El>::empty());
    } else {
        spine_front(t, es.drop_last());
        assert(es.drop_last().drop_first() =~= rest.drop_last());
    }
}

/// A head that is applied to arguments which reduce to others.
pub proof fn red_spine_apps(th: Theory, t: Tm, es: Seq<El>, ys: Seq<Tm>)
    requires
        all_apps(es),
        red_all(th, spine_args(es), ys),
    ensures
        red(th, spine_tm(t, es), apps(t, ys)),
{
    spine_of_apps(t, es);
    crate::laws::red_refl(th, t);
    red_apps(th, t, t, spine_args(es), ys);
}

} // verus!
