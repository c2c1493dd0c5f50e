use nanoda::bignum::BigNat;
use nanoda::checker::{InferFlag, Stop, TypeChecker};
use nanoda::config::Config;
use nanoda::ctx::{ExportFile, TcCtx};
use nanoda::declar::Verdict;
use nanoda::env::{
    ConstructorData, Declar, DeclarInfo, DeclarMap, EnvLimit, InductiveData, RecRule, RecursorData,
};
use nanoda::expr::Expr;
use nanoda::force::ForceStep;
use nanoda::ptr::{ExprPtr, LevelsPtr, NamePtr};
use nanoda::relevance::app_prefix_len;
use nanoda::sig::Sig;
use nanoda::tree::BinderStyle;
use nanoda::value::{Elim, RigidHead, Value, V};
use nanoda::vcache::{elim_key, rigid_head_key};

const FUEL: u64 = 60;

struct World {
    file: ExportFile,
    nat: NamePtr,
    zero: NamePtr,
    succ: NamePtr,
    add: NamePtr,
    nat_rec: NamePtr,
    boolean: NamePtr,
    no: NamePtr,
    yes: NamePtr,
    bool_rec: NamePtr,
    pair: NamePtr,
    mk: NamePtr,
    p: NamePtr,
    hp: NamePtr,
    hq: NamePtr,
    two: NamePtr,
    idn: NamePtr,
    fun: NamePtr,
    lift: NamePtr,
    qmk: NamePtr,
    none: LevelsPtr,
    one: LevelsPtr,
}

fn options(nat_extension: bool) -> Config {
    Config {
        export_file_path: None,
        use_stdin: true,
        permitted_axioms: None,
        unpermitted_axiom_hard_error: false,
        num_threads: 1,
        nat_extension,
        string_extension: true,
        pp_declars: None,
        unknown_pp_declar_hard_error: true,
        pp_output_path: None,
        pp_to_stdout: false,
        print_success_message: false,
        print_axioms: true,
        unsafe_permit_all_axioms: false,
    }
}

fn arrow(ctx: &mut TcCtx, a: ExprPtr, b: ExprPtr) -> ExprPtr {
    let x = ctx.anonymous();
    ctx.mk_pi(x, BinderStyle::Default, a, b)
}

fn lam(ctx: &mut TcCtx, a: ExprPtr, b: ExprPtr) -> ExprPtr {
    let x = ctx.anonymous();
    ctx.mk_lambda(x, BinderStyle::Default, a, b)
}

fn lit(ctx: &mut TcCtx, n: u64) -> ExprPtr {
    match ctx.mk_nat_lit_quick(BigNat::from_u64(n)) {
        Some(e) => e,
        None => panic!("no literals"),
    }
}

fn world() -> World {
    let mut ctx = TcCtx::loading(true, true);
    let nat = ctx.str1("Nat");
    let zero = ctx.str2("Nat", "zero");
    let succ = ctx.str2("Nat", "succ");
    let add = ctx.str2("Nat", "add");
    let nat_rec = ctx.str2("Nat", "rec");
    let boolean = ctx.str1("Bool");
    let no = ctx.str2("Bool", "false");
    let yes = ctx.str2("Bool", "true");
    let bool_rec = ctx.str2("Bool", "rec");
    let pair = ctx.str1("Pair");
    let mk = ctx.str2("Pair", "mk");
    let p = ctx.str1("p");
    let hp = ctx.str1("hp");
    let hq = ctx.str1("hq");
    let two = ctx.str1("two");
    let idn = ctx.str1("idn");
    let fun = ctx.str1("fun");
    let lift = ctx.str2("Quot", "lift");
    let qmk = ctx.str2("Quot", "mk");
    let quot = ctx.str1("Quot");
    let none = ctx.no_levels();
    let z = ctx.zero();
    let l1 = ctx.succ(z);
    let one = ctx.alloc_levels(vec![l1]);
    let u = ctx.str1("u");
    let pu = ctx.param(u);
    let us = ctx.alloc_levels(vec![pu]);
    let prop = ctx.mk_sort(z);
    let ty = ctx.mk_sort(l1);
    let su = ctx.mk_sort(pu);
    let natc = ctx.mk_plain(nat);
    let boolc = ctx.mk_plain(boolean);
    let zeroc = ctx.mk_plain(zero);
    let succc = ctx.mk_plain(succ);
    let noc = ctx.mk_plain(no);
    let yesc = ctx.mk_plain(yes);
    let pairc = ctx.mk_plain(pair);
    let pc = ctx.mk_plain(p);
    let hpc = ctx.mk_plain(hp);
    let v0 = ctx.mk_var(0);
    let v1 = ctx.mk_var(1);
    let v2 = ctx.mk_var(2);
    let v3 = ctx.mk_var(3);
    let nn = arrow(&mut ctx, natc, natc);
    let nnn = arrow(&mut ctx, natc, nn);

    // motive : Bool -> Sort u, motive false, motive true, b : Bool |- motive b
    let bmot = arrow(&mut ctx, boolc, su);
    let end = ctx.mk_app(v3, v0);
    let t = arrow(&mut ctx, boolc, end);
    let on_yes = ctx.mk_app(v1, yesc);
    let t = arrow(&mut ctx, on_yes, t);
    let on_no = ctx.mk_app(v0, noc);
    let t = arrow(&mut ctx, on_no, t);
    let bool_rec_ty = arrow(&mut ctx, bmot, t);
    let pick = |ctx: &mut TcCtx, v: ExprPtr| {
        let a = lam(ctx, on_yes, v);
        let b = lam(ctx, on_no, a);
        lam(ctx, bmot, b)
    };
    let val_no = pick(&mut ctx, v1);
    let val_yes = pick(&mut ctx, v0);

    // motive : Nat -> Sort u, motive zero, (n : Nat) -> motive n -> motive (succ n)
    let nmot = arrow(&mut ctx, natc, su);
    let on_zero = ctx.mk_app(v0, zeroc);
    let sn = ctx.mk_app(succc, v1);
    let next = ctx.mk_app(v3, sn);
    let ih = ctx.mk_app(v2, v0);
    let step = arrow(&mut ctx, ih, next);
    let on_succ = arrow(&mut ctx, natc, step);
    let end = ctx.mk_app(v3, v0);
    let t = arrow(&mut ctx, natc, end);
    let t = arrow(&mut ctx, on_succ, t);
    let t = arrow(&mut ctx, on_zero, t);
    let nat_rec_ty = arrow(&mut ctx, nmot, t);
    let a = lam(&mut ctx, on_succ, v1);
    let a = lam(&mut ctx, on_zero, a);
    let val_zero = lam(&mut ctx, nmot, a);
    let rec_c = ctx.mk_const(nat_rec, us);
    let again = ctx.foldl_apps(rec_c, &vec![v3, v2, v1, v0], 0, 4);
    let s = ctx.mk_app(v1, v0);
    let s = ctx.mk_app(s, again);
    let a = lam(&mut ctx, natc, s);
    let a = lam(&mut ctx, on_succ, a);
    let a = lam(&mut ctx, on_zero, a);
    let val_succ = lam(&mut ctx, nmot, a);

    let id_val = lam(&mut ctx, natc, v0);
    let lit2 = lit(&mut ctx, 2);
    let lit3 = lit(&mut ctx, 3);
    let t = arrow(&mut ctx, natc, pairc);
    let mk_ty = arrow(&mut ctx, natc, t);
    let about = |name: NamePtr, ty: ExprPtr| DeclarInfo { name, uparams: none, ty };
    let mut ds = DeclarMap::new();
    let ind = |name: NamePtr, ctors: Vec<NamePtr>, is_recursive: bool| InductiveData {
        info: DeclarInfo { name, uparams: none, ty },
        is_recursive,
        num_params: 0,
        num_indices: 0,
        all_ctor_names: ctors,
    };
    let ctor = |name: NamePtr, ty: ExprPtr, of: NamePtr, num_fields: u16| {
        Declar::Constructor(ConstructorData {
            info: DeclarInfo { name, uparams: none, ty },
            inductive_name: of,
            num_params: 0,
            num_fields,
        })
    };
    ds.insert(Declar::Inductive(ind(nat, vec![zero, succ], true)));
    ds.insert(ctor(zero, natc, nat, 0));
    ds.insert(ctor(succ, nn, nat, 1));
    ds.insert(Declar::Recursor(RecursorData {
        info: DeclarInfo { name: nat_rec, uparams: us, ty: nat_rec_ty },
        all_inductives: vec![nat],
        num_params: 0,
        num_indices: 0,
        num_motives: 1,
        num_minors: 2,
        rec_rules: vec![
            RecRule { ctor_name: zero, ctor_telescope_size_wo_params: 0, val: val_zero },
            RecRule { ctor_name: succ, ctor_telescope_size_wo_params: 1, val: val_succ },
        ],
        is_k: false,
    }));
    ds.insert(Declar::Axiom { info: about(add, nnn) });
    ds.insert(Declar::Inductive(ind(boolean, vec![no, yes], false)));
    ds.insert(ctor(no, boolc, boolean, 0));
    ds.insert(ctor(yes, boolc, boolean, 0));
    ds.insert(Declar::Recursor(RecursorData {
        info: DeclarInfo { name: bool_rec, uparams: us, ty: bool_rec_ty },
        all_inductives: vec![boolean],
        num_params: 0,
        num_indices: 0,
        num_motives: 1,
        num_minors: 2,
        rec_rules: vec![
            RecRule { ctor_name: no, ctor_telescope_size_wo_params: 0, val: val_no },
            RecRule { ctor_name: yes, ctor_telescope_size_wo_params: 0, val: val_yes },
        ],
        is_k: false,
    }));
    ds.insert(Declar::Inductive(ind(pair, vec![mk], false)));
    ds.insert(ctor(mk, mk_ty, pair, 2));
    ds.insert(Declar::Axiom { info: about(p, prop) });
    ds.insert(Declar::Axiom { info: about(hp, pc) });
    ds.insert(Declar::Theorem { info: about(hq, pc), val: hpc });
    ds.insert(Declar::Definition { info: about(two, natc), val: lit2 });
    ds.insert(Declar::Definition { info: about(idn, nn), val: id_val });
    let opaque = ctx.str1("three");
    ds.insert(Declar::Opaque { info: about(opaque, natc), val: lit3 });
    ds.insert(Declar::Axiom { info: about(fun, nn) });
    ds.insert(Declar::Quot { info: about(quot, prop) });
    ds.insert(Declar::Quot { info: about(qmk, prop) });
    ds.insert(Declar::Quot { info: about(lift, prop) });
    let file = ctx.into_export_file(ds, options(true));
    World {
        file, nat, zero, succ, add, nat_rec, boolean, no, yes, bool_rec, pair, mk, p, hp, hq, two, idn,
        fun, lift, qmk, none, one,
    }
}

fn good<T>(r: Result<T, Stop>) -> T {
    match r {
        Ok(x) => x,
        Err(s) => panic!("{:?}", s),
    }
}

fn stop<T>(r: Result<T, Stop>) -> Stop {
    match r {
        Ok(_) => panic!("no stop"),
        Err(s) => s,
    }
}

fn same(tc: &TypeChecker, a: ExprPtr, b: ExprPtr) -> bool {
    tc.ctx.eq_expr(a, b)
}

fn constant(tc: &mut TypeChecker, n: NamePtr) -> ExprPtr {
    tc.ctx.mk_plain(n)
}

fn apply(tc: &mut TypeChecker, f: ExprPtr, xs: Vec<ExprPtr>) -> ExprPtr {
    let n = xs.len();
    tc.ctx.foldl_apps(f, &xs, 0, n)
}

fn number(tc: &TypeChecker, v: V) -> u64 {
    match tc.vals.read(v) {
        Value::NatLit { ptr } => match tc.ctx.read_bignum(ptr) {
            Some(n) => n.to_u64().unwrap_or(u64::MAX),
            None => panic!("no number"),
        },
        _ => panic!("no literal"),
    }
}

fn head_name(tc: &TypeChecker, v: V) -> Option<NamePtr> {
    match tc.vals.read(v) {
        Value::Rigid { head, .. } => match head {
            RigidHead::Axiom(n, _) => Some(n),
            RigidHead::Ctor(n, _) => Some(n),
            RigidHead::Recursor(n, _) => Some(n),
            RigidHead::QuotConst(n, _) => Some(n),
            RigidHead::Inductive(n, _) => Some(n),
            _ => None,
        },
        Value::Unfold { name, .. } => Some(name),
        _ => None,
    }
}

// Bool.rec.{1} (fun _ => Nat) 7 8 b
fn bool_case(tc: &mut TypeChecker, w: &World, b: NamePtr) -> ExprPtr {
    let natc = constant(tc, w.nat);
    let boolc = constant(tc, w.boolean);
    let motive = lam(&mut tc.ctx, boolc, natc);
    let bc = constant(tc, b);
    let f = tc.ctx.mk_const(w.bool_rec, w.one);
    let l7 = lit(&mut tc.ctx, 7);
    let l8 = lit(&mut tc.ctx, 8);
    apply(tc, f, vec![motive, l7, l8, bc])
}

// Nat.rec.{1} (fun _ => Nat) 5 (fun _ ih => fun ih) n
fn nat_case(tc: &mut TypeChecker, w: &World, n: ExprPtr) -> ExprPtr {
    let natc = constant(tc, w.nat);
    let motive = lam(&mut tc.ctx, natc, natc);
    let f = tc.ctx.mk_const(w.nat_rec, w.one);
    let l5 = lit(&mut tc.ctx, 5);
    let v0 = tc.ctx.mk_var(0);
    let g = constant(tc, w.fun);
    let b = tc.ctx.mk_app(g, v0);
    let b = lam(&mut tc.ctx, natc, b);
    let step = lam(&mut tc.ctx, natc, b);
    apply(tc, f, vec![motive, l5, step, n])
}

#[test]
fn a_function_meets_its_argument() {
    let w = world();
    w.file.with_tc(EnvLimit::Unlimited, |mut tc: TypeChecker<'_>| {
        let natc = constant(&mut tc, w.nat);
        let v0 = tc.ctx.mk_var(0);
        let id = lam(&mut tc.ctx, natc, v0);
        let l2 = lit(&mut tc.ctx, 2);
        let e = tc.ctx.mk_app(id, l2);
        assert_eq!(stop(tc.whnf(e, 0)), Stop::OutOfFuel);
        let r = good(tc.whnf(e, FUEL));
        assert!(same(&tc, r, l2));
        let r = good(tc.whnf_no_unfolding(e, FUEL));
        assert!(same(&tc, r, l2));
        assert_eq!(stop(tc.whnf(v0, FUEL)), Stop::LooseVariable);
        let prop = tc.ctx.prop();
        let bad = tc.ctx.mk_app(prop, l2);
        assert_eq!(stop(tc.whnf(bad, FUEL)), Stop::IllTyped);
    });
}

#[test]
fn constants_and_local_definitions_unfold() {
    let w = world();
    w.file.with_tc(EnvLimit::Unlimited, |mut tc: TypeChecker<'_>| {
        let l2 = lit(&mut tc.ctx, 2);
        let two = constant(&mut tc, w.two);
        let r = good(tc.whnf(two, FUEL));
        assert!(same(&tc, r, l2));
        let r = good(tc.whnf_no_unfolding(two, FUEL));
        assert!(same(&tc, r, two));
        match tc.unfold_def(two) {
            Some(r) => assert!(same(&tc, r, l2)),
            None => panic!("does not unfold"),
        }
        let natc = constant(&mut tc, w.nat);
        assert!(tc.unfold_def(natc).is_none());
        let x = tc.ctx.anonymous();
        let v0 = tc.ctx.mk_var(0);
        let e = tc.ctx.mk_let(x, natc, two, v0, false);
        let r = good(tc.whnf(e, FUEL));
        assert!(same(&tc, r, l2));
        let r = good(tc.whnf(natc, FUEL));
        assert!(same(&tc, r, natc));
    });
}

#[test]
fn projections_meet_constructors() {
    let w = world();
    w.file.with_tc(EnvLimit::Unlimited, |mut tc: TypeChecker<'_>| {
        let mk = constant(&mut tc, w.mk);
        let l2 = lit(&mut tc.ctx, 2);
        let l9 = lit(&mut tc.ctx, 9);
        let both = apply(&mut tc, mk, vec![l2, l9]);
        match good(tc.reduce_proj(1, both, FUEL)) {
            Some(r) => assert!(same(&tc, r, l9)),
            None => panic!("no field"),
        }
        assert_eq!(stop(tc.reduce_proj(2, both, FUEL)), Stop::IllTyped);
        let e = tc.ctx.mk_proj(w.pair, 0, both);
        let r = good(tc.whnf(e, FUEL));
        assert!(same(&tc, r, l2));
        assert!(good(tc.reduce_proj(0, l2, FUEL)).is_none());
        match tc.is_ctor_app(both) {
            Some(n) => assert!(tc.ctx.eq_name(n, w.mk)),
            None => panic!("no constructor"),
        }
        assert!(tc.is_ctor_app(l2).is_none());
    });
}

#[test]
fn recursors_meet_constructors() {
    let w = world();
    w.file.with_tc(EnvLimit::Unlimited, |mut tc: TypeChecker<'_>| {
        let e = bool_case(&mut tc, &w, w.yes);
        let l8 = lit(&mut tc.ctx, 8);
        let r = good(tc.whnf(e, FUEL));
        assert!(same(&tc, r, l8));
        let e = bool_case(&mut tc, &w, w.no);
        let l7 = lit(&mut tc.ctx, 7);
        let r = good(tc.whnf(e, FUEL));
        assert!(same(&tc, r, l7));
        let l0 = lit(&mut tc.ctx, 0);
        let e = nat_case(&mut tc, &w, l0);
        let l5 = lit(&mut tc.ctx, 5);
        let r = good(tc.whnf(e, FUEL));
        assert!(same(&tc, r, l5));
        let l1 = lit(&mut tc.ctx, 1);
        let e = nat_case(&mut tc, &w, l1);
        let r = good(tc.whnf(e, FUEL));
        let (h, xs) = tc.ctx.unfold_apps(r);
        let g = constant(&mut tc, w.fun);
        assert!(same(&tc, h, g));
        assert_eq!(xs.len(), 1);
    });
}

#[test]
fn quotients_are_lifted() {
    let w = world();
    w.file.with_tc(EnvLimit::Unlimited, |mut tc: TypeChecker<'_>| {
        let p = constant(&mut tc, w.p);
        let g = constant(&mut tc, w.idn);
        let l2 = lit(&mut tc.ctx, 2);
        let mk = constant(&mut tc, w.qmk);
        let q = apply(&mut tc, mk, vec![p, p, l2]);
        let lift = constant(&mut tc, w.lift);
        let e = apply(&mut tc, lift, vec![p, p, p, g, p, q]);
        let r = good(tc.whnf(e, FUEL));
        assert!(same(&tc, r, l2));
        let stuck = apply(&mut tc, lift, vec![p, p, p, g, p, p]);
        let r = good(tc.whnf(stuck, FUEL));
        assert!(same(&tc, r, stuck));
        let e = good(tc.eval_closed(e, FUEL));
        let r = good(tc.force_all(e, FUEL));
        assert_eq!(number(&tc, r), 2);
    });
}

#[test]
fn numbers_are_computed() {
    let w = world();
    w.file.with_tc(EnvLimit::Unlimited, |mut tc: TypeChecker<'_>| {
        let add = constant(&mut tc, w.add);
        let two = constant(&mut tc, w.two);
        let l3 = lit(&mut tc.ctx, 3);
        let e = apply(&mut tc, add, vec![two, l3]);
        let l5 = lit(&mut tc.ctx, 5);
        let r = good(tc.whnf(e, FUEL));
        assert!(same(&tc, r, l5));
        let succ = constant(&mut tc, w.succ);
        let e = apply(&mut tc, succ, vec![l3]);
        let l4 = lit(&mut tc.ctx, 4);
        match good(tc.try_reduce_nat(e, FUEL)) {
            Some(r) => assert!(same(&tc, r, l4)),
            None => panic!("not computed"),
        }
        assert!(good(tc.try_reduce_nat(two, FUEL)).is_none());
        let zero = constant(&mut tc, w.zero);
        let e = apply(&mut tc, add, vec![zero, l3]);
        let r = good(tc.whnf(e, FUEL));
        assert!(same(&tc, r, l3));
    });
}

#[test]
fn literals_are_taken_apart() {
    let w = world();
    w.file.with_tc(EnvLimit::Unlimited, |mut tc: TypeChecker<'_>| {
        let n = match tc.ctx.alloc_bignum(BigNat::from_u64(3)) {
            Some(p) => p,
            None => panic!("no literals"),
        };
        let succ = constant(&mut tc, w.succ);
        let l2 = lit(&mut tc.ctx, 2);
        let want = tc.ctx.mk_app(succ, l2);
        match tc.ctx.nat_lit_to_constructor(n) {
            Some(e) => assert!(same(&tc, e, want)),
            None => panic!("no constructor"),
        }
        let s = tc.ctx.alloc_string("ab".to_string());
        assert!(tc.ctx.str_lit_to_constructor(s).is_none());
    });
}

#[test]
fn types_are_inferred() {
    let w = world();
    w.file.with_tc(EnvLimit::Unlimited, |mut tc: TypeChecker<'_>| {
        let natc = constant(&mut tc, w.nat);
        let l2 = lit(&mut tc.ctx, 2);
        let t = good(tc.infer(l2, InferFlag::Check, FUEL));
        assert!(same(&tc, t, natc));
        let two = constant(&mut tc, w.two);
        let t = good(tc.infer(two, InferFlag::Check, FUEL));
        assert!(same(&tc, t, natc));
        let idn = constant(&mut tc, w.idn);
        let e = tc.ctx.mk_app(idn, two);
        let t = good(tc.infer(e, InferFlag::Check, FUEL));
        assert!(same(&tc, t, natc));
        let v0 = tc.ctx.mk_var(0);
        let f = lam(&mut tc.ctx, natc, v0);
        let nn = arrow(&mut tc.ctx, natc, natc);
        let t = good(tc.infer(f, InferFlag::Check, FUEL));
        assert!(same(&tc, t, nn));
        let z = tc.ctx.zero();
        let one = tc.ctx.succ(z);
        let ty = tc.ctx.mk_sort(one);
        let t = good(tc.infer(nn, InferFlag::Check, FUEL));
        let t = good(tc.whnf(t, FUEL));
        assert!(same(&tc, t, ty));
        let prop = tc.ctx.prop();
        let t = good(tc.infer(prop, InferFlag::Check, FUEL));
        assert!(same(&tc, t, ty));
        let x = tc.ctx.anonymous();
        let e = tc.ctx.mk_let(x, natc, l2, v0, false);
        let t = good(tc.infer(e, InferFlag::Check, FUEL));
        assert!(same(&tc, t, natc));
        let mk = constant(&mut tc, w.mk);
        let both = apply(&mut tc, mk, vec![l2, two]);
        let e = tc.ctx.mk_proj(w.pair, 1, both);
        let t = good(tc.infer(e, InferFlag::Check, FUEL));
        assert!(same(&tc, t, natc));
        let e = bool_case(&mut tc, &w, w.yes);
        let t = good(tc.infer(e, InferFlag::Check, FUEL));
        let t = good(tc.whnf(t, FUEL));
        assert!(same(&tc, t, natc));
    });
}

#[test]
fn ill_typed_terms_are_refused() {
    let w = world();
    w.file.with_tc(EnvLimit::Unlimited, |mut tc: TypeChecker<'_>| {
        let natc = constant(&mut tc, w.nat);
        let l2 = lit(&mut tc.ctx, 2);
        let idn = constant(&mut tc, w.idn);
        let yes = constant(&mut tc, w.yes);
        let e = tc.ctx.mk_app(idn, yes);
        assert_eq!(stop(tc.infer(e, InferFlag::Check, FUEL)), Stop::NotEqual);
        let t = good(tc.infer(e, InferFlag::InferOnly, FUEL));
        assert!(same(&tc, t, natc));
        let e = tc.ctx.mk_app(l2, l2);
        assert_eq!(stop(tc.infer(e, InferFlag::Check, FUEL)), Stop::NotAPi);
        let v0 = tc.ctx.mk_var(0);
        assert_eq!(stop(tc.infer(v0, InferFlag::Check, FUEL)), Stop::LooseVariable);
        let n = tc.ctx.str1("missing");
        let c = constant(&mut tc, n);
        assert_eq!(stop(tc.infer(c, InferFlag::Check, FUEL)), Stop::UnknownConst);
        let e = lam(&mut tc.ctx, l2, v0);
        assert_eq!(stop(tc.infer(e, InferFlag::Check, FUEL)), Stop::NotASort);
        let e = tc.ctx.mk_proj(w.pair, 0, idn);
        assert_eq!(stop(tc.infer(e, InferFlag::Check, FUEL)), Stop::NotAStructure);
        let e = tc.ctx.mk_app(idn, l2);
        assert_eq!(stop(tc.infer(e, InferFlag::Check, 0)), Stop::OutOfFuel);
        let s = tc.ctx.mk_string_lit_quick("x".to_string());
        match s {
            Some(s) => assert_eq!(stop(tc.infer(s, InferFlag::Check, FUEL)), Stop::NoLiterals),
            None => panic!("no literal"),
        }
        assert_eq!(stop(tc.ensure_sort(l2, FUEL)), Stop::NotASort);
        assert_eq!(stop(tc.ensure_pi(l2, FUEL)), Stop::NotAPi);
    });
}

#[test]
fn undeclared_universe_parameters_are_refused() {
    let w = world();
    let info = match w.file.declars.get(&w.nat) {
        Some(d) => d.info(),
        None => panic!("not declared"),
    };
    w.file.with_tc_and_declar(info, |mut tc: TypeChecker<'_>| {
        let v = tc.ctx.str1("v");
        let l = tc.ctx.param(v);
        let s = tc.ctx.mk_sort(l);
        assert_eq!(stop(tc.infer(s, InferFlag::Check, FUEL)), Stop::UndefinedUniverse);
        assert!(tc.infer(s, InferFlag::InferOnly, FUEL).is_ok());
    });
}

#[test]
fn propositions_and_proofs_are_told_apart() {
    let w = world();
    w.file.with_tc(EnvLimit::Unlimited, |mut tc: TypeChecker<'_>| {
        let p = constant(&mut tc, w.p);
        let hp = constant(&mut tc, w.hp);
        let natc = constant(&mut tc, w.nat);
        let l2 = lit(&mut tc.ctx, 2);
        assert!(good(tc.is_proposition(p, FUEL)).0);
        assert!(!good(tc.is_proposition(natc, FUEL)).0);
        assert!(good(tc.is_proof(hp, FUEL)).0);
        assert!(!good(tc.is_proof(l2, FUEL)).0);
        let prop = tc.ctx.prop();
        assert!(good(tc.is_sort_zero(prop, FUEL)));
        assert!(!good(tc.is_sort_zero(natc, FUEL)));
        assert!(tc.can_be_struct(w.pair));
        assert!(!tc.can_be_struct(w.nat));
        assert!(!tc.can_be_struct(w.p));
    });
}

#[test]
fn equal_by_definition() {
    let w = world();
    w.file.with_tc(EnvLimit::Unlimited, |mut tc: TypeChecker<'_>| {
        let two = constant(&mut tc, w.two);
        let l2 = lit(&mut tc.ctx, 2);
        let l3 = lit(&mut tc.ctx, 3);
        assert!(good(tc.def_eq(two, l2, false, FUEL)));
        assert!(!good(tc.def_eq(two, l3, false, FUEL)));
        assert!(tc.assert_def_eq(l2, two, FUEL).is_ok());
        assert_eq!(stop(tc.assert_def_eq(l3, two, FUEL)), Stop::NotEqual);
        let hp = constant(&mut tc, w.hp);
        let hq = constant(&mut tc, w.hq);
        assert!(good(tc.proof_irrel_eq(hp, hq, FUEL)));
        assert!(good(tc.def_eq(hp, hq, false, FUEL)));
        assert!(!good(tc.proof_irrel_eq(l2, l2, FUEL)));
        let natc = constant(&mut tc, w.nat);
        let boolc = constant(&mut tc, w.boolean);
        assert!(!good(tc.def_eq(natc, boolc, false, FUEL)));
        let g = constant(&mut tc, w.fun);
        let v0 = tc.ctx.mk_var(0);
        let b = tc.ctx.mk_app(g, v0);
        let eta = lam(&mut tc.ctx, natc, b);
        assert!(good(tc.def_eq(eta, g, false, FUEL)));
        assert!(good(tc.def_eq(g, eta, false, FUEL)));
        let z = tc.ctx.zero();
        let one = tc.ctx.succ(z);
        let m = tc.ctx.max(one, z);
        let a = tc.ctx.mk_sort(m);
        let b = tc.ctx.mk_sort(one);
        assert!(good(tc.def_eq(a, b, false, FUEL)));
        let prop = tc.ctx.prop();
        assert!(!good(tc.def_eq(a, prop, false, FUEL)));
        let f1 = arrow(&mut tc.ctx, natc, natc);
        let f2 = arrow(&mut tc.ctx, natc, boolc);
        assert!(!good(tc.def_eq(f1, f2, false, FUEL)));
    });
}

#[test]
fn terms_are_reduced_everywhere() {
    let w = world();
    w.file.with_tc(EnvLimit::Unlimited, |mut tc: TypeChecker<'_>| {
        let g = constant(&mut tc, w.fun);
        let two = constant(&mut tc, w.two);
        let l2 = lit(&mut tc.ctx, 2);
        let e = tc.ctx.mk_app(g, two);
        let r = good(tc.strong_reduce(e, true, true, FUEL));
        let want = tc.ctx.mk_app(g, l2);
        assert!(same(&tc, r, want));
        let natc = constant(&mut tc, w.nat);
        let idn = constant(&mut tc, w.idn);
        let v0 = tc.ctx.mk_var(0);
        let b = tc.ctx.mk_app(idn, v0);
        let f = lam(&mut tc.ctx, natc, b);
        let r = good(tc.strong_reduce(f, true, true, FUEL));
        let id = lam(&mut tc.ctx, natc, v0);
        assert!(same(&tc, r, id));
        let hq = constant(&mut tc, w.hq);
        let r = good(tc.strong_reduce(hq, true, false, FUEL));
        assert!(same(&tc, r, hq));
        let hp = constant(&mut tc, w.hp);
        let r = good(tc.strong_reduce(hq, true, true, FUEL));
        assert!(same(&tc, r, hp));
        let r = good(tc.strong_reduce(natc, false, true, FUEL));
        assert!(same(&tc, r, natc));
        assert_eq!(stop(tc.strong_reduce(e, true, true, 0)), Stop::OutOfFuel);
    });
}

#[test]
fn structures_are_made_of_their_projections() {
    let w = world();
    w.file.with_tc(EnvLimit::Unlimited, |mut tc: TypeChecker<'_>| {
        let pairc = constant(&mut tc, w.pair);
        let x = tc.ctx.str1("x");
        let local = tc.ctx.mk_dbj_level(x, BinderStyle::Default, pairc);
        let a = tc.ctx.mk_proj(w.pair, 0, local);
        let b = tc.ctx.mk_proj(w.pair, 1, local);
        let mk = constant(&mut tc, w.mk);
        let want = apply(&mut tc, mk, vec![a, b]);
        match good(tc.expand_eta_struct_aux(pairc, local)) {
            Some(r) => assert!(same(&tc, r, want)),
            None => panic!("not expanded"),
        }
        match tc.mk_nullary_ctor(pairc, 0) {
            Some(r) => assert!(same(&tc, r, mk)),
            None => panic!("no constructor"),
        }
        let t = good(tc.infer(a, InferFlag::Check, FUEL));
        let natc = constant(&mut tc, w.nat);
        assert!(same(&tc, t, natc));
        assert!(tc.ctx.has_fvars(local));
        assert_eq!(tc.ctx.depth(local), 1);
        let body = tc.ctx.abstr_levels(local, 0);
        match body {
            Some(v) => assert!(matches!(tc.ctx.read_expr(v), Expr::Var { dbj_idx: 0, .. })),
            None => panic!("not abstracted"),
        }
    });
}

#[test]
fn all_declarations_are_checked() {
    let w = world();
    match w.file.check_all_declars_serial(FUEL) {
        Ok(left) => assert_eq!(left, vec![0, 5, 9, 18, 19, 20]),
        Err((i, s)) => panic!("{} {:?}", i, s),
    }
    match w.file.declars.get(&w.two) {
        Some(d) => assert_eq!(good(w.file.check_declar(d, FUEL)), Verdict::Checked),
        None => panic!("not declared"),
    }
    match w.file.declars.get(&w.nat) {
        Some(d) => assert_eq!(good(w.file.check_declar(d, FUEL)), Verdict::InductiveLeft),
        None => panic!("not declared"),
    }
    match w.file.declars.get(&w.lift) {
        Some(d) => assert_eq!(good(w.file.check_declar(d, FUEL)), Verdict::QuotLeft),
        None => panic!("not declared"),
    }
}

fn lone(d: impl Fn(&mut TcCtx) -> Declar) -> Stop {
    let mut ctx = TcCtx::loading(true, true);
    let d = d(&mut ctx);
    let mut ds = DeclarMap::new();
    ds.insert(d);
    let file = ctx.into_export_file(ds, options(true));
    match file.check_all_declars_serial(FUEL) {
        Ok(_) => panic!("accepted"),
        Err((i, s)) => {
            assert_eq!(i, 0);
            s
        },
    }
}

#[test]
fn bad_declarations_are_refused() {
    let s = lone(|ctx| {
        let name = ctx.str1("a");
        let u = ctx.str1("u");
        let p = ctx.param(u);
        let uparams = ctx.alloc_levels(vec![p, p]);
        let ty = ctx.prop();
        Declar::Axiom { info: DeclarInfo { name, uparams, ty } }
    });
    assert_eq!(s, Stop::BadUniverses);
    let s = lone(|ctx| {
        let name = ctx.str1("a");
        let uparams = ctx.no_levels();
        let ty = lit(ctx, 3);
        Declar::Axiom { info: DeclarInfo { name, uparams, ty } }
    });
    assert_eq!(s, Stop::NoLiterals);
    let s = lone(|ctx| {
        let name = ctx.str1("a");
        let uparams = ctx.no_levels();
        let ty = ctx.prop();
        Declar::Theorem { info: DeclarInfo { name, uparams, ty }, val: ty }
    });
    assert_eq!(s, Stop::TheoremNotProp);
    let s = lone(|ctx| {
        let name = ctx.str1("a");
        let uparams = ctx.no_levels();
        let ty = ctx.prop();
        Declar::Definition { info: DeclarInfo { name, uparams, ty }, val: ty }
    });
    assert_eq!(s, Stop::NotEqual);
    let s = lone(|ctx| {
        let name = ctx.str1("a");
        let of = ctx.str1("b");
        let uparams = ctx.no_levels();
        let ty = ctx.prop();
        Declar::Constructor(ConstructorData {
            info: DeclarInfo { name, uparams, ty },
            inductive_name: of,
            num_params: 0,
            num_fields: 0,
        })
    });
    assert_eq!(s, Stop::NoInductive);
    let s = lone(|ctx| {
        let name = ctx.str1("a");
        let uparams = ctx.no_levels();
        let ty = ctx.mk_plain(name);
        Declar::Axiom { info: DeclarInfo { name, uparams, ty } }
    });
    assert_eq!(s, Stop::UnknownConst);
}

#[test]
fn an_extension_is_searched_first() {
    let w = world();
    w.file.with_ctx(|mut ctx: TcCtx<'_>| {
        let boolc = ctx.mk_plain(w.boolean);
        let mut ext = DeclarMap::new();
        ext.insert(Declar::Axiom {
            info: DeclarInfo { name: w.two, uparams: w.none, ty: boolc },
        });
        ctx.with_tc_and_env_ext(&ext, EnvLimit::Unlimited, |mut tc: TypeChecker<'_>| {
            let two = constant(&mut tc, w.two);
            let t = good(tc.infer(two, InferFlag::InferOnly, FUEL));
            assert!(same(&tc, t, boolc));
            let r = good(tc.whnf(two, FUEL));
            assert!(same(&tc, r, two));
            let idn = constant(&mut tc, w.idn);
            let t = good(tc.infer(idn, InferFlag::InferOnly, FUEL));
            assert!(matches!(tc.ctx.read_expr(t), Expr::Pi { .. }));
            let s = good(tc.sig_of(w.fun, w.none, FUEL));
            assert!(!s.masks_any_arg());
        });
    });
}

#[test]
fn declarations_behind_the_limit_are_not_seen() {
    let w = world();
    w.file.with_tc(EnvLimit::ByName(w.two), |mut tc: TypeChecker<'_>| {
        let two = constant(&mut tc, w.two);
        assert_eq!(stop(tc.infer(two, InferFlag::Check, FUEL)), Stop::UnknownConst);
        let hp = constant(&mut tc, w.hp);
        assert!(tc.infer(hp, InferFlag::Check, FUEL).is_ok());
        assert!(tc.get_declar(w.idn).is_none());
        assert!(tc.get_inductive(w.nat).is_some());
        assert!(tc.get_constructor(w.succ).is_some());
        assert!(tc.get_recursor(w.nat_rec).is_some());
        assert!(tc.get_declar_val(w.hq).is_some());
        assert!(tc.get_declar_val(w.hp).is_none());
    });
}

#[test]
fn terms_are_evaluated() {
    let w = world();
    w.file.with_tc(EnvLimit::Unlimited, |mut tc: TypeChecker<'_>| {
        let idn = constant(&mut tc, w.idn);
        let two = constant(&mut tc, w.two);
        let e = tc.ctx.mk_app(idn, two);
        let v = good(tc.eval_closed(e, FUEL));
        let r = good(tc.force_all(v, FUEL));
        assert_eq!(number(&tc, r), 2);
        let r = good(tc.whnf_head(v, FUEL));
        assert_eq!(number(&tc, r), 2);
        let r = good(tc.strip_head(v, FUEL));
        assert_eq!(number(&tc, r), 2);
        let e = bool_case(&mut tc, &w, w.yes);
        let v = good(tc.eval_closed(e, FUEL));
        assert!(tc.is_iota_reducible(v));
        match good(tc.iota_step(v, FUEL)) {
            ForceStep::Reduced(r) => assert_eq!(number(&tc, r), 8),
            _ => panic!("does not reduce"),
        }
        let r = good(tc.force_all(v, FUEL));
        assert_eq!(number(&tc, r), 8);
        let v0 = tc.ctx.mk_var(0);
        assert_eq!(stop(tc.eval_closed(v0, FUEL)), Stop::LooseVariable);
        assert_eq!(stop(tc.eval_closed(e, 0)), Stop::OutOfFuel);
        let l1 = lit(&mut tc.ctx, 1);
        let e = nat_case(&mut tc, &w, l1);
        let v = good(tc.eval_closed(e, FUEL));
        let r = good(tc.force_all(v, FUEL));
        match head_name(&tc, r) {
            Some(n) => assert!(tc.ctx.eq_name(n, w.fun)),
            None => panic!("no constant"),
        }
    });
}

#[test]
fn a_recursor_waits_for_its_major_premise() {
    let w = world();
    w.file.with_tc(EnvLimit::Unlimited, |mut tc: TypeChecker<'_>| {
        // Bool.rec (fun _ => Nat) 7 8 (Bool.rec (fun _ => Bool) true false true)
        let natc = constant(&mut tc, w.nat);
        let boolc = constant(&mut tc, w.boolean);
        let yes = constant(&mut tc, w.yes);
        let no = constant(&mut tc, w.no);
        let f = tc.ctx.mk_const(w.bool_rec, w.one);
        let inner = lam(&mut tc.ctx, boolc, boolc);
        let m = apply(&mut tc, f, vec![inner, yes, no, yes]);
        let outer = lam(&mut tc.ctx, boolc, natc);
        let l7 = lit(&mut tc.ctx, 7);
        let l8 = lit(&mut tc.ctx, 8);
        let e = apply(&mut tc, f, vec![outer, l7, l8, m]);
        let v = good(tc.eval_closed(e, FUEL));
        assert!(matches!(good(tc.iota_step(v, FUEL)), ForceStep::Descend(_)));
        let r = good(tc.force_all(v, FUEL));
        assert_eq!(number(&tc, r), 7);
        let r = good(tc.whnf(e, FUEL));
        assert!(same(&tc, r, l7));
    });
}

#[test]
fn values_are_projected_from() {
    let w = world();
    w.file.with_tc(EnvLimit::Unlimited, |mut tc: TypeChecker<'_>| {
        let mk = constant(&mut tc, w.mk);
        let l2 = lit(&mut tc.ctx, 2);
        let l9 = lit(&mut tc.ctx, 9);
        let both = apply(&mut tc, mk, vec![l2, l9]);
        let v = good(tc.eval_closed(both, FUEL));
        let r = good(tc.do_proj(w.pair, 1, v, FUEL));
        assert_eq!(number(&tc, r), 9);
        let prop = tc.ctx.prop();
        let s = good(tc.eval_closed(prop, FUEL));
        assert_eq!(stop(tc.do_proj(w.pair, 0, s, FUEL)), Stop::IllTyped);
        match good(tc.unwrap_ctor_app(v, FUEL)) {
            Some((n, xs)) => {
                assert!(tc.ctx.eq_name(n, w.mk));
                assert_eq!(xs.len(), 2);
            },
            None => panic!("no constructor"),
        }
        let pairc = constant(&mut tc, w.pair);
        let x = tc.ctx.str1("x");
        let local = tc.ctx.mk_dbj_level(x, BinderStyle::Default, pairc);
        let lv = good(tc.eval_closed(local, FUEL));
        let pr = good(tc.do_proj(w.pair, 0, lv, FUEL));
        let t = good(tc.value_type(pr, FUEL));
        let t = good(tc.force_all(t, FUEL));
        match head_name(&tc, t) {
            Some(n) => assert!(tc.ctx.eq_name(n, w.nat)),
            None => panic!("no constant"),
        }
        match tc.vals.read(pr) {
            Value::Rigid { spine, .. } => assert_eq!(app_prefix_len(&tc, spine), 0),
            _ => panic!("another form"),
        }
    });
}

#[test]
fn numbers_are_computed_on_values() {
    let w = world();
    w.file.with_tc(EnvLimit::Unlimited, |mut tc: TypeChecker<'_>| {
        let two = constant(&mut tc, w.two);
        let a = good(tc.eval_closed(two, FUEL));
        let l3 = lit(&mut tc.ctx, 3);
        let b = good(tc.eval_closed(l3, FUEL));
        match good(tc.do_nat_red(w.add, &vec![a, b], FUEL)) {
            Some(v) => assert_eq!(number(&tc, v), 5),
            None => panic!("not computed"),
        }
        match good(tc.do_nat_red(w.succ, &vec![b], FUEL)) {
            Some(v) => assert_eq!(number(&tc, v), 4),
            None => panic!("not computed"),
        }
        assert!(good(tc.do_nat_red(w.fun, &vec![b], FUEL)).is_none());
        assert!(tc.is_nat_red_name(w.add));
        assert!(!tc.is_nat_red_name(w.fun));
        match good(tc.value_to_bignum(a, FUEL)) {
            Some(n) => assert_eq!(n.to_u64(), Some(2)),
            None => panic!("no number"),
        }
        let succ = constant(&mut tc, w.succ);
        let e = tc.ctx.mk_app(succ, l3);
        let v = good(tc.eval_closed(e, FUEL));
        assert_eq!(number(&tc, v), 4);
        let big = lit(&mut tc.ctx, 1000);
        let big = good(tc.eval_closed(big, FUEL));
        assert!(good(tc.nat_red_defer(w.add, &vec![b, big], FUEL)));
        assert!(!good(tc.nat_red_defer(w.add, &vec![big, b], FUEL)));
        match tc.mk_natlit_val(BigNat::from_u64(6)) {
            Some(v) => assert_eq!(number(&tc, v), 6),
            None => panic!("no literal"),
        }
        match tc.bool_val(true) {
            Some(v) => match head_name(&tc, v) {
                Some(n) => assert!(tc.ctx.eq_name(n, w.yes)),
                None => panic!("no constant"),
            },
            None => panic!("no truth value"),
        }
        assert!(!good(tc.value_has_free_bvar(a, FUEL)));
    });
}

#[test]
fn values_have_types() {
    let w = world();
    w.file.with_tc(EnvLimit::Unlimited, |mut tc: TypeChecker<'_>| {
        let l3 = lit(&mut tc.ctx, 3);
        let v = good(tc.eval_closed(l3, FUEL));
        let t = good(tc.value_type(v, FUEL));
        match head_name(&tc, t) {
            Some(n) => assert!(tc.ctx.eq_name(n, w.nat)),
            None => panic!("no constant"),
        }
        let g = constant(&mut tc, w.fun);
        let e = tc.ctx.mk_app(g, l3);
        let v = good(tc.eval_closed(e, FUEL));
        let t = good(tc.value_type(v, FUEL));
        let t = good(tc.force_all(t, FUEL));
        match good(tc.unwrap_inductive_app(t, FUEL)) {
            Some((n, _, xs)) => {
                assert!(tc.ctx.eq_name(n, w.nat));
                assert_eq!(xs.len(), 0);
            },
            None => panic!("no inductive type"),
        }
        let natc = constant(&mut tc, w.nat);
        let v0 = tc.ctx.mk_var(0);
        let f = lam(&mut tc.ctx, natc, v0);
        let f = good(tc.eval_closed(f, FUEL));
        assert_eq!(stop(tc.value_type(f, FUEL)), Stop::IllTyped);
        match good(tc.const_result_level(w.nat, w.none, FUEL)) {
            Some(l) => {
                let z = tc.ctx.zero();
                let one = tc.ctx.succ(z);
                let two = tc.ctx.succ(one);
                assert!(tc.ctx.eq_level(l, one) || tc.ctx.eq_level(l, two));
            },
            None => panic!("no level"),
        }
        assert!(good(tc.const_result_level(w.zero, w.none, FUEL)).is_none());
        let missing = tc.ctx.str1("missing");
        assert_eq!(stop(tc.const_head_type(missing, w.none, FUEL)), Stop::UnknownConst);
    });
}

#[test]
fn arguments_are_proofs_or_not() {
    let w = world();
    w.file.with_tc(EnvLimit::Unlimited, |mut tc: TypeChecker<'_>| {
        let s = good(tc.sig_of(w.fun, w.none, FUEL));
        assert_eq!(s.arity, 1);
        assert!(!s.arg_is_proof(0));
        assert!(!s.masks_any_arg());
        assert!(s.result_is_not_proof(1));
        let s = good(tc.sig_of(w.hp, w.none, FUEL));
        assert_eq!(s.arity, 0);
        assert!(!s.result_is_not_proof(0));
        let missing = tc.ctx.str1("missing");
        assert_eq!(stop(tc.sig_of(missing, w.none, FUEL)), Stop::UnknownConst);
    });
    assert!(!Sig::all_relevant().masks_any_arg());
    assert!(!Sig::all_relevant().result_is_not_proof(0));
}

#[test]
fn arguments_that_are_proofs_are_masked() {
    let mut ctx = TcCtx::loading(true, true);
    let p = ctx.str1("p");
    let c = ctx.str1("c");
    let none = ctx.no_levels();
    let prop = ctx.prop();
    let pc = ctx.mk_plain(p);
    let ty = arrow(&mut ctx, pc, prop);
    let ty = arrow(&mut ctx, prop, ty);
    let mut ds = DeclarMap::new();
    ds.insert(Declar::Axiom { info: DeclarInfo { name: p, uparams: none, ty: prop } });
    ds.insert(Declar::Axiom { info: DeclarInfo { name: c, uparams: none, ty } });
    let file = ctx.into_export_file(ds, options(true));
    file.with_tc(EnvLimit::Unlimited, |mut tc: TypeChecker<'_>| {
        let s = good(tc.sig_of(c, none, FUEL));
        assert_eq!(s.arity, 2);
        assert!(!s.arg_is_proof(0));
        assert!(s.arg_is_proof(1));
        assert!(s.masks_any_arg());
        let again = good(tc.sig_of(c, none, FUEL));
        assert_eq!(again.arity, 2);
    });
}

#[test]
fn equal_values_are_stored_once() {
    let w = world();
    w.file.with_tc(EnvLimit::Unlimited, |mut tc: TypeChecker<'_>| {
        let g = constant(&mut tc, w.fun);
        let l3 = lit(&mut tc.ctx, 3);
        let e = tc.ctx.mk_app(g, l3);
        let a = good(tc.eval_closed(e, FUEL));
        let gv = good(tc.eval_closed(g, FUEL));
        let lv = good(tc.eval_closed(l3, FUEL));
        let b = good(tc.apply(gv, lv, FUEL));
        assert_eq!(a.idx, b.idx);
        assert_eq!(stop(tc.apply(lv, lv, FUEL)), Stop::IllTyped);
        let h = RigidHead::Axiom(w.fun, w.none);
        let k = RigidHead::Axiom(w.add, w.none);
        assert!(tc.same_head(h, h));
        assert!(!tc.same_head(h, k));
        assert_eq!(rigid_head_key(&h), rigid_head_key(&h));
        assert_ne!(rigid_head_key(&h), rigid_head_key(&k));
        let c = RigidHead::Ctor(w.fun, w.none);
        assert_ne!(rigid_head_key(&h), rigid_head_key(&c));
        let x = Elim::App(lv);
        let y = Elim::Proj { ty_name: w.pair, idx: 0 };
        assert_eq!(elim_key(&x), elim_key(&x));
        assert_ne!(elim_key(&x), elim_key(&y));
    });
}

#[test]
fn constructors_of_the_numbers_are_literals() {
    let w = world();
    w.file.with_tc(EnvLimit::Unlimited, |mut tc: TypeChecker<'_>| {
        let l3 = lit(&mut tc.ctx, 3);
        let v = good(tc.eval_closed(l3, FUEL));
        match good(tc.major_to_ctor(v, FUEL)) {
            Some(c) => {
                let n = good(tc.value_to_bignum(c, FUEL));
                match n {
                    Some(n) => assert_eq!(n.to_u64(), Some(3)),
                    None => panic!("no number"),
                }
            },
            None => panic!("no constructor"),
        }
        let natc = constant(&mut tc, w.nat);
        let n = good(tc.eval_closed(natc, FUEL));
        assert!(good(tc.major_to_ctor(n, FUEL)).is_none());
        assert!(!tc.is_iota_reducible(n));
        assert!(good(tc.conv_types(n, n, FUEL)));
    });
}

#[test]
fn without_the_extension_there_are_no_literals() {
    let mut ctx = TcCtx::loading(false, true);
    let nat = ctx.str1("Nat");
    let none = ctx.no_levels();
    let z = ctx.zero();
    let one = ctx.succ(z);
    let ty = ctx.mk_sort(one);
    let mut ds = DeclarMap::new();
    ds.insert(Declar::Axiom { info: DeclarInfo { name: nat, uparams: none, ty } });
    let file = ctx.into_export_file(ds, options(false));
    file.with_tc(EnvLimit::Unlimited, |mut tc: TypeChecker<'_>| {
        assert!(tc.ctx.mk_nat_lit_quick(BigNat::from_u64(1)).is_none());
        let c = tc.ctx.mk_plain(nat);
        let r = good(tc.whnf(c, FUEL));
        assert!(tc.ctx.eq_expr(r, c));
    });
}

#[test]
fn little_fuel_is_enough_where_no_head_reduces() {
    let w = world();
    w.file.with_tc(EnvLimit::Unlimited, |mut tc: TypeChecker<'_>| {
        let mk = constant(&mut tc, w.mk);
        let l2 = lit(&mut tc.ctx, 2);
        let l9 = lit(&mut tc.ctx, 9);
        let both = apply(&mut tc, mk, vec![l2, l9]);
        let v = good(tc.eval_closed(both, 12));
        assert_eq!(good(tc.force_all(v, 2)).idx, v.idx);
        assert_eq!(good(tc.whnf_head(v, 1)).idx, v.idx);
        assert_eq!(good(tc.strip_head(v, 1)).idx, v.idx);
        assert!(matches!(good(tc.iota_step(v, 1)), ForceStep::Done));
        let g = constant(&mut tc, w.fun);
        let e = tc.ctx.mk_app(g, l9);
        let r = good(tc.strong_reduce(e, true, true, 5));
        assert!(same(&tc, r, e));
        let natc = constant(&mut tc, w.nat);
        let v0 = tc.ctx.mk_var(0);
        let id = lam(&mut tc.ctx, natc, v0);
        let r = good(tc.strong_reduce(id, true, true, 7));
        assert!(same(&tc, r, id));
        let x = tc.ctx.str1("x");
        let pairc = constant(&mut tc, w.pair);
        let local = tc.ctx.mk_dbj_level(x, BinderStyle::Default, pairc);
        let e = tc.ctx.mk_proj(w.pair, 1, local);
        let v = good(tc.eval_closed(e, 6));
        assert!(matches!(tc.vals.read(v), Value::Rigid { head: RigidHead::Local(_), .. }));
        let def = tc.ctx.mk_let(x, natc, l2, natc, false);
        let v = good(tc.eval_closed(def, 6));
        match head_name(&tc, v) {
            Some(n) => assert!(tc.ctx.eq_name(n, w.nat)),
            None => panic!("no constant"),
        }
    });
}

#[test]
fn a_recursor_of_the_numbers_meets_zero() {
    let w = world();
    w.file.with_tc(EnvLimit::Unlimited, |mut tc: TypeChecker<'_>| {
        let mut xs: Vec<V> = Vec::new();
        let natc = constant(&mut tc, w.nat);
        let motive = lam(&mut tc.ctx, natc, natc);
        let l5 = lit(&mut tc.ctx, 5);
        let step = constant(&mut tc, w.add);
        let l0 = lit(&mut tc.ctx, 0);
        for e in [motive, l5, step, l0] {
            xs.push(good(tc.eval_closed(e, FUEL)));
        }
        match good(tc.do_recursor_iota(w.nat_rec, w.one, &xs, 4)) {
            Some(v) => assert_eq!(v.idx, xs[1].idx),
            None => panic!("does not reduce"),
        }
        xs.pop();
        assert!(good(tc.do_recursor_iota(w.nat_rec, w.one, &xs, 4)).is_none());
    });
}

#[test]
fn two_arguments_are_taken_at_once() {
    let w = world();
    w.file.with_tc(EnvLimit::Unlimited, |mut tc: TypeChecker<'_>| {
        let natc = constant(&mut tc, w.nat);
        let v1 = tc.ctx.mk_var(1);
        let inner = lam(&mut tc.ctx, natc, v1);
        let k = lam(&mut tc.ctx, natc, inner);
        let l2 = lit(&mut tc.ctx, 2);
        let l9 = lit(&mut tc.ctx, 9);
        let e = apply(&mut tc, k, vec![l2, l9]);
        let r = good(tc.whnf_no_unfolding(e, 2));
        assert!(same(&tc, r, l2));
    });
}

#[test]
fn applied_variables_are_values() {
    let w = world();
    w.file.with_tc(EnvLimit::Unlimited, |mut tc: TypeChecker<'_>| {
        let prop = tc.ctx.prop();
        let x = tc.ctx.anonymous();
        let f = tc.ctx.mk_unique(x, BinderStyle::Default, prop);
        let g = tc.ctx.mk_unique(x, BinderStyle::Default, prop);
        let a = tc.ctx.mk_unique(x, BinderStyle::Default, prop);
        let ga = tc.ctx.mk_app(g, a);
        let fga = tc.ctx.mk_app(f, ga);
        let e = tc.ctx.mk_app(f, fga);
        let env = tc.empty_env();
        let v = good(tc.eval_no_cache(env, e, FUEL));
        match tc.vals.read(v) {
            Value::Rigid { head: RigidHead::Local(h), spine } => {
                assert!(same(&tc, h, f));
                assert_eq!(app_prefix_len(&tc, spine), 1);
            },
            _ => panic!("another form"),
        }
    });
}

#[test]
fn a_recursor_with_too_few_arguments_is_done() {
    let w = world();
    w.file.with_tc(EnvLimit::Unlimited, |mut tc: TypeChecker<'_>| {
        let f = tc.ctx.mk_const(w.bool_rec, w.one);
        let natc = constant(&mut tc, w.nat);
        let boolc = constant(&mut tc, w.boolean);
        let motive = lam(&mut tc.ctx, boolc, natc);
        let e = apply(&mut tc, f, vec![motive]);
        let v = good(tc.eval_closed(e, FUEL));
        assert!(matches!(good(tc.iota_step(v, 1)), ForceStep::Done));
    });
}

#[test]
fn a_checked_type_is_found_again() {
    let w = world();
    w.file.with_tc(EnvLimit::Unlimited, |mut tc: TypeChecker<'_>| {
        let idn = constant(&mut tc, w.idn);
        let two = constant(&mut tc, w.two);
        let e = tc.ctx.mk_app(idn, two);
        let t = good(tc.infer(e, InferFlag::Check, FUEL));
        let u = good(tc.infer(e, InferFlag::InferOnly, 0));
        assert!(same(&tc, t, u));
    });
}

#[test]
fn terms_of_the_file_are_not_stored_again() {
    let w = world();
    w.file.with_tc(EnvLimit::Unlimited, |mut tc: TypeChecker<'_>| {
        let natc = constant(&mut tc, w.nat);
        assert!(!natc.local);
        let l77 = lit(&mut tc.ctx, 77);
        let e = tc.ctx.mk_app(natc, l77);
        assert!(e.local);
    });
}

#[test]
fn forcing_again_gives_the_same_value() {
    let w = world();
    w.file.with_tc(EnvLimit::Unlimited, |mut tc: TypeChecker<'_>| {
        let e = bool_case(&mut tc, &w, w.yes);
        let v = good(tc.eval_closed(e, FUEL));
        let r = good(tc.force_all(v, FUEL));
        assert_eq!(good(tc.force_all(r, 2)).idx, r.idx);
        // a recursor whose major premise is a variable
        let f = tc.ctx.mk_const(w.bool_rec, w.one);
        let natc = constant(&mut tc, w.nat);
        let boolc = constant(&mut tc, w.boolean);
        let motive = lam(&mut tc.ctx, boolc, natc);
        let l7 = lit(&mut tc.ctx, 7);
        let l8 = lit(&mut tc.ctx, 8);
        let n = tc.ctx.anonymous();
        let x = tc.ctx.mk_unique(n, BinderStyle::Default, boolc);
        let e = apply(&mut tc, f, vec![motive, l7, l8, x]);
        let v = good(tc.eval_closed(e, FUEL));
        let r = good(tc.force_all(v, FUEL));
        assert_eq!(r.idx, v.idx);
        assert_eq!(good(tc.force_all(r, 2)).idx, r.idx);
    });
}

#[test]
fn an_unfolding_is_remembered() {
    let w = world();
    w.file.with_tc(EnvLimit::Unlimited, |mut tc: TypeChecker<'_>| {
        let two = constant(&mut tc, w.two);
        let v = good(tc.eval_closed(two, FUEL));
        let a = good(tc.unfold_value(v, FUEL));
        assert!(a.idx != v.idx);
        let b = good(tc.unfold_value_demand(v, 2));
        assert_eq!(a.idx, b.idx);
        // nothing is left to unfold
        let c = good(tc.unfold_value(a, 1));
        assert_eq!(c.idx, a.idx);
    });
}
