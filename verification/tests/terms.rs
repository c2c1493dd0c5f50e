use nanoda::bignum::BigNat;
use nanoda::cache::{new_fx_hash_map, new_fx_hash_map_by_size, new_unique_hash_map, Cache};
use nanoda::ctx::TcCtx;
use nanoda::env::{Declar, DeclarInfo, DeclarMap, Env, EnvLimit};
use nanoda::expr::{is_expr_local_only, Expr};
use nanoda::hash::fx_hash;
use nanoda::level::Level;
use nanoda::name::{Name, NameNode, NatRed};
use nanoda::ptr::{ExprPtr, LevelPtr, NamePtr};
use nanoda::tree::BinderStyle;

fn shown(ctx: &TcCtx, p: NamePtr) -> String {
    match ctx.read_name(p) {
        Name::Anon => String::new(),
        Name::Str(pfx, sfx, _) => format!("{}.{}", shown(ctx, pfx), ctx.read_string(sfx)),
        Name::Num(pfx, sfx, _) => format!("{}.{}", shown(ctx, pfx), sfx),
    }
}

fn level(ctx: &TcCtx, l: LevelPtr) -> String {
    match ctx.read_level(l) {
        Level::Zero => "0".to_string(),
        Level::Succ(p, _) => format!("s({})", level(ctx, p)),
        Level::Max(a, b, _) => format!("max({},{})", level(ctx, a), level(ctx, b)),
        Level::IMax(a, b, _) => format!("imax({},{})", level(ctx, a), level(ctx, b)),
        Level::Param(n, _) => shown(ctx, n),
    }
}

fn prop(ctx: &mut TcCtx) -> ExprPtr {
    let z = ctx.zero();
    ctx.mk_sort(z)
}

#[test]
fn equal_names_are_stored_once() {
    let mut ctx = TcCtx::loading(true, true);
    let a = ctx.str2("Nat", "add");
    let n = ctx.str1("Nat");
    let s = ctx.alloc_string("add".to_string());
    let b = ctx.str(n, s);
    assert!(ctx.eq_name(a, b));
    assert!(!ctx.eq_name(a, n));
    assert_eq!(ctx.read_name(a).get_hash(), ctx.read_name(b).get_hash());
    assert_eq!(shown(&ctx, a), ".Nat.add");
    assert!(!a.is_local());
}

#[test]
fn names_are_put_together_and_replaced() {
    let mut ctx = TcCtx::loading(true, true);
    let ab = ctx.str2("a", "b");
    let cd = ctx.str2("c", "d");
    let all = ctx.concat_name(ab, cd);
    assert_eq!(shown(&ctx, all), ".a.b.c.d");
    let anon = ctx.anonymous();
    let same = ctx.concat_name(ab, anon);
    assert!(ctx.eq_name(same, ab));
    let x = ctx.str1("x");
    let other = ctx.replace_pfx(all, ab, x);
    assert_eq!(shown(&ctx, other), ".x.c.d");
    let kept = ctx.replace_pfx(all, cd, x);
    assert!(ctx.eq_name(kept, all));
    let numbered = ctx.num(ab, 7);
    assert_eq!(shown(&ctx, numbered), ".a.b.7");
    let after = ctx.append_index_after(ab, 3);
    assert_eq!(shown(&ctx, after), ".a.b_3");
}

#[test]
fn names_are_found_by_their_dotted_form() {
    let mut ctx = TcCtx::loading(true, true);
    let add = ctx.str2("Nat", "add");
    let go = ctx.str1("go");
    let long = ctx.concat_name(add, go);
    let five = ctx.num(long, 5);
    let anon = ctx.anonymous();
    let found = ctx.dag.find_name(anon, "Nat.add.go.5");
    match found {
        Some(p) => assert!(ctx.eq_name(p, five)),
        None => panic!("not found"),
    }
    assert!(ctx.dag.find_name(anon, "Nat.sub").is_none());
    assert!(ctx.dag.find_name(anon, "Nat.add.").is_none());
    assert!(ctx.dag.get_string_ptr("go").is_some());
    assert!(ctx.dag.get_string_ptr("gone").is_none());
}

#[test]
fn known_names_are_those_that_are_stored() {
    let mut ctx = TcCtx::loading(true, true);
    let nat = ctx.str1("Nat");
    let succ = ctx.str2("Nat", "succ");
    let anon = ctx.anonymous();
    let cache = ctx.dag.mk_name_cache(anon);
    assert!(ctx.is_known(nat, cache.nat));
    assert!(ctx.is_known(succ, cache.nat_succ));
    assert!(!ctx.is_known(nat, cache.nat_succ));
    assert!(cache.nat_add.is_none());
    assert!(cache.quot.is_none());
}

#[test]
fn operations_have_codes() {
    let mut k: u8 = 0;
    while k <= 16 {
        match NatRed::from_u8(k) {
            Some(op) => assert_eq!(op.to_u8(), k),
            None => panic!("no operation"),
        }
        k += 1;
    }
    assert!(NatRed::from_u8(17).is_none());
    assert_eq!(NatRed::Add.to_u8(), 3);
    assert_eq!(NatRed::from_u8(16), Some(NatRed::Shr));
}

#[test]
fn what_is_known_of_a_name() {
    let mut node = NameNode::new(Name::Anon);
    assert_eq!(node.decl_idx(), u32::MAX);
    assert!(!node.is_nat_red());
    assert_eq!(node.nat_red(), None);
    node.set_decl_idx(4);
    node.set_nat_red(NatRed::Gcd);
    assert_eq!(node.decl_idx(), 4);
    assert!(node.is_nat_red());
    assert_eq!(node.nat_red(), Some(NatRed::Gcd));
    assert!(matches!(node.kind(), Name::Anon));
}

#[test]
fn levels_are_simplified() {
    let mut ctx = TcCtx::loading(true, true);
    let u = ctx.str1("u");
    let p = ctx.param(u);
    let z = ctx.zero();
    let one = ctx.succ(z);
    let i = ctx.imax(p, z);
    let s = ctx.simplify(i);
    assert_eq!(level(&ctx, s), "0");
    let i = ctx.imax(p, one);
    let s = ctx.simplify(i);
    assert_eq!(level(&ctx, s), "max(.u,s(0))");
    let two = ctx.succ(one);
    let m = ctx.max(one, two);
    let s = ctx.simplify(m);
    assert_eq!(level(&ctx, s), "s(s(0))");
    assert!(ctx.is_zero(z));
    assert!(!ctx.is_zero(one));
    assert!(!ctx.is_zero(p));
}

#[test]
fn level_parameters() {
    let mut ctx = TcCtx::loading(true, true);
    let u = ctx.str1("u");
    let v = ctx.str1("v");
    let pu = ctx.param(u);
    let pv = ctx.param(v);
    let z = ctx.zero();
    let us = ctx.alloc_levels(vec![pu]);
    let uu = ctx.alloc_levels(vec![pu, pu]);
    let uv = ctx.alloc_levels(vec![pu, pv]);
    let zs = ctx.alloc_levels(vec![z]);
    assert!(ctx.no_dupes_all_params(uv));
    assert!(!ctx.no_dupes_all_params(uu));
    assert!(!ctx.no_dupes_all_params(zs));
    let m = ctx.max(pu, pv);
    assert!(ctx.all_uparams_defined(m, uv));
    assert!(!ctx.all_uparams_defined(m, us));
    let s = ctx.subst_level(m, us, zs);
    assert_eq!(level(&ctx, s), "max(0,.v)");
    let again = ctx.alloc_levels(vec![pu]);
    assert!(ctx.eq_levels(us, again));
    assert!(!ctx.eq_levels(us, zs));
    assert!(!us.is_local());
    assert_eq!(us.get_hash(), again.get_hash());
}

#[test]
fn equal_terms_are_stored_once() {
    let mut ctx = TcCtx::loading(true, true);
    let a = prop(&mut ctx);
    let b = prop(&mut ctx);
    assert!(ctx.eq_expr(a, b));
    let x = ctx.mk_app(a, b);
    let y = ctx.mk_app(b, a);
    assert!(ctx.eq_expr(x, y));
    let z = ctx.mk_app(x, y);
    assert!(!ctx.eq_expr(z, x));
}

#[test]
fn loose_variables_are_counted() {
    let mut ctx = TcCtx::loading(true, true);
    let p = prop(&mut ctx);
    let v0 = ctx.mk_var(0);
    let v2 = ctx.mk_var(2);
    assert_eq!(ctx.num_loose_bvars(v0), 1);
    assert_eq!(ctx.num_loose_bvars(v2), 3);
    let x = ctx.str1("x");
    let lam = ctx.mk_lambda(x, BinderStyle::Default, p, v2);
    assert_eq!(ctx.num_loose_bvars(lam), 2);
    let id = ctx.mk_lambda(x, BinderStyle::Default, p, v0);
    assert_eq!(ctx.num_loose_bvars(id), 0);
    assert!(!ctx.has_fvars(id));
    assert!(!is_expr_local_only(&ctx.read_expr(id)));
}

#[test]
fn variables_are_replaced() {
    let mut ctx = TcCtx::loading(true, true);
    let p = prop(&mut ctx);
    let v0 = ctx.mk_var(0);
    let v1 = ctx.mk_var(1);
    let body = ctx.mk_app(v1, v0);
    let done = ctx.inst_one(v0, p);
    assert!(ctx.eq_expr(done, p));
    let x = ctx.str1("x");
    let c = ctx.mk_plain(x);
    let both = ctx.inst(body, &vec![c, p]);
    let want = ctx.mk_app(c, p);
    assert!(ctx.eq_expr(both, want));
    let kept = ctx.inst_one(want, v0);
    assert!(ctx.eq_expr(kept, want));
}

#[test]
fn applications_are_taken_apart_and_put_together() {
    let mut ctx = TcCtx::loading(true, true);
    let f = ctx.str1("f");
    let f = ctx.mk_plain(f);
    let p = prop(&mut ctx);
    let all = ctx.foldl_apps(f, &vec![p, f, p], 0, 3);
    let (h, xs) = ctx.unfold_apps(all);
    assert!(ctx.eq_expr(h, f));
    assert_eq!(xs.len(), 3);
    assert!(ctx.eq_expr(xs[1], f));
    let (h, ys) = ctx.unfold_apps_stack(all);
    assert!(ctx.eq_expr(h, f));
    assert_eq!(ys.len(), 3);
    assert!(ctx.unfold_const_apps(all).is_some());
    assert!(ctx.unfold_const_apps(p).is_none());
    let g = ctx.unfold_apps_fun(all);
    assert!(ctx.eq_expr(g, f));
}

#[test]
fn universe_parameters_of_terms_are_replaced() {
    let mut ctx = TcCtx::loading(true, true);
    let u = ctx.str1("u");
    let pu = ctx.param(u);
    let z = ctx.zero();
    let one = ctx.succ(z);
    let ks = ctx.alloc_levels(vec![pu]);
    let vs = ctx.alloc_levels(vec![one]);
    let s = ctx.mk_sort(pu);
    let x = ctx.str1("x");
    let e = ctx.mk_pi(x, BinderStyle::Implicit, s, s);
    let r = ctx.subst_expr_levels(e, ks, vs);
    let t = ctx.mk_sort(one);
    let want = ctx.mk_pi(x, BinderStyle::Implicit, t, t);
    assert!(ctx.eq_expr(r, want));
}

#[test]
fn literals_need_the_extension() {
    let mut ctx = TcCtx::loading(false, false);
    assert!(ctx.alloc_bignum(BigNat::from_u64(3)).is_none());
    assert!(ctx.mk_nat_lit_quick(BigNat::from_u64(3)).is_none());
    let mut ctx = TcCtx::loading(true, true);
    let a = ctx.mk_nat_lit_quick(BigNat::from_u64(3));
    let b = ctx.mk_nat_lit_quick(BigNat::from_u64(3));
    match (a, b) {
        (Some(a), Some(b)) => {
            assert!(ctx.eq_expr(a, b));
            match ctx.get_bignum_from_expr(a) {
                Some(n) => assert_eq!(n.to_u64(), Some(3)),
                None => panic!("no number"),
            }
        },
        _ => panic!("no literal"),
    }
    assert!(ctx.mk_string_lit_quick("s".to_string()).is_some());
}

#[test]
fn declarations_keep_their_order_and_first_place() {
    let mut ctx = TcCtx::loading(true, true);
    let a = ctx.str1("a");
    let b = ctx.str1("b");
    let none = ctx.no_levels();
    let ty = prop(&mut ctx);
    let mut ds = DeclarMap::new();
    assert!(ds.insert(Declar::Axiom { info: DeclarInfo { name: a, uparams: none, ty } }));
    assert!(ds.insert(Declar::Axiom { info: DeclarInfo { name: b, uparams: none, ty } }));
    assert!(!ds.insert(Declar::Quot { info: DeclarInfo { name: a, uparams: none, ty } }));
    assert_eq!(ds.len(), 2);
    assert_eq!(ds.get_index_of(&b), Some(1));
    assert!(ds.get(&a).is_some());
    assert!(ds.declares_all(&vec![a, b]));
    let c = ctx.str1("c");
    assert!(!ds.declares_all(&vec![a, c]));
    assert!(ds.get_index(2).is_none());
    let env = Env::new(&ds, EnvLimit::ByName(b));
    assert_eq!(env.cutoff, 1);
    let env = Env::new(&ds, EnvLimit::Unlimited);
    assert_eq!(env.cutoff, 2);
}

#[test]
fn hashes_depend_on_every_word() {
    assert_eq!(fx_hash(&vec![1, 2]), fx_hash(&vec![1, 2]));
    assert_ne!(fx_hash(&vec![1, 2]), fx_hash(&vec![2, 1]));
    assert_ne!(fx_hash(&vec![1, 2]), fx_hash(&vec![1, 3]));
}

#[test]
fn caches_give_back_what_was_put_last() {
    let mut c: Cache<u32, u32> = Cache::new();
    assert!(c.get(5).is_none());
    c.put(5, 1, 10);
    c.put(6, 2, 20);
    assert_eq!(c.get(5), Some((1, 10)));
    c.put(5, 3, 30);
    assert_eq!(c.get(5), Some((3, 30)));
    assert_eq!(c.get(6), Some((2, 20)));
    c.clear();
    assert!(c.get(6).is_none());
    assert_eq!(new_unique_hash_map::<u32>().len(), 0);
    assert_eq!(new_fx_hash_map::<u32>().len(), 0);
    assert_eq!(new_fx_hash_map_by_size::<u32>().len(), 0);
}

#[test]
fn terms_read_back_as_they_were_made() {
    let mut ctx = TcCtx::loading(true, true);
    let p = prop(&mut ctx);
    let x = ctx.str1("x");
    let v0 = ctx.mk_var(0);
    let e = ctx.mk_let(x, p, p, v0, false);
    match ctx.read_expr(e) {
        Expr::Let { binder_name, val, body, nondep, num_loose_bvars, .. } => {
            assert!(ctx.eq_name(binder_name, x));
            assert!(ctx.eq_expr(val, p));
            assert!(ctx.eq_expr(body, v0));
            assert!(!nondep);
            assert_eq!(num_loose_bvars, 0);
        },
        _ => panic!("another form"),
    }
}
