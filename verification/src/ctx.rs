//! The export file that checking sessions share, and the context of one session: the
//! operations that read, build and find names, levels and terms.
use crate::bignum::{canonical_digits_unique, BigNat};
use crate::config::Config;
use crate::dag::{level_trees, Dag, LevelList, Stores};
use crate::env::{Declar, DeclarInfo, DeclarMap};
use crate::expr::{is_expr_local_only, Expr};
use crate::hash::{Interner, Node};
use crate::level::Level;
use crate::name::Name;
use crate::ptr::{BigUintPtr, ExprPtr, LevelPtr, LevelsPtr, NamePtr, Ptr, StringPtr};
use crate::tree::{Lv, Nm};
use vstd::prelude::*;

verus! {

/// The names that the checker knows, where they occur in the export file.
#[derive(Clone, Copy)]
pub struct NameCache {
    pub quot: Option<NamePtr>,
    pub quot_mk: Option<NamePtr>,
    pub quot_lift: Option<NamePtr>,
    pub quot_ind: Option<NamePtr>,
    pub nat: Option<NamePtr>,
    pub nat_zero: Option<NamePtr>,
    pub nat_succ: Option<NamePtr>,
    pub nat_add: Option<NamePtr>,
    pub nat_sub: Option<NamePtr>,
    pub nat_mul: Option<NamePtr>,
    pub nat_pow: Option<NamePtr>,
    pub nat_mod: Option<NamePtr>,
    pub nat_div: Option<NamePtr>,
    pub nat_div_go: Option<NamePtr>,
    pub nat_mod_core_go: Option<NamePtr>,
    pub nat_beq: Option<NamePtr>,
    pub nat_ble: Option<NamePtr>,
    pub nat_gcd: Option<NamePtr>,
    pub nat_xor: Option<NamePtr>,
    pub nat_land: Option<NamePtr>,
    pub nat_lor: Option<NamePtr>,
    pub nat_shr: Option<NamePtr>,
    pub nat_shl: Option<NamePtr>,
    pub string: Option<NamePtr>,
    pub string_of_list: Option<NamePtr>,
    pub bool_false: Option<NamePtr>,
    pub bool_true: Option<NamePtr>,
    pub char: Option<NamePtr>,
    pub char_of_nat: Option<NamePtr>,
    pub list: Option<NamePtr>,
    pub list_nil: Option<NamePtr>,
    pub list_cons: Option<NamePtr>,
}

/// The name, if it is known, is valid.
pub open spec fn known_ok(st: Stores, n: Option<NamePtr>) -> bool {
    n matches Some(p) ==> st.has_name(p)
}

impl NameCache {
    /// The names that are known are valid.
    pub open spec fn fits(self, st: Stores) -> bool {
        &&& known_ok(st, self.quot)
        &&& known_ok(st, self.quot_mk)
        &&& known_ok(st, self.quot_lift)
        &&& known_ok(st, self.quot_ind)
        &&& known_ok(st, self.nat)
        &&& known_ok(st, self.nat_zero)
        &&& known_ok(st, self.nat_succ)
        &&& known_ok(st, self.nat_add)
        &&& known_ok(st, self.nat_sub)
        &&& known_ok(st, self.nat_mul)
        &&& known_ok(st, self.nat_pow)
        &&& known_ok(st, self.nat_mod)
        &&& known_ok(st, self.nat_div)
        &&& known_ok(st, self.nat_div_go)
        &&& known_ok(st, self.nat_mod_core_go)
        &&& known_ok(st, self.nat_beq)
        &&& known_ok(st, self.nat_ble)
        &&& known_ok(st, self.nat_gcd)
        &&& known_ok(st, self.nat_xor)
        &&& known_ok(st, self.nat_land)
        &&& known_ok(st, self.nat_lor)
        &&& known_ok(st, self.nat_shr)
        &&& known_ok(st, self.nat_shl)
        &&& known_ok(st, self.string)
        &&& known_ok(st, self.string_of_list)
        &&& known_ok(st, self.bool_false)
        &&& known_ok(st, self.bool_true)
        &&& known_ok(st, self.char)
        &&& known_ok(st, self.char_of_nat)
        &&& known_ok(st, self.list)
        &&& known_ok(st, self.list_nil)
        &&& known_ok(st, self.list_cons)
    }

    /// No names are known.
    pub fn none() -> (r: NameCache)
        ensures
            forall|st: Stores| #[trigger] r.fits(st),
    {
        NameCache {
            quot: None,
            quot_mk: None,
            quot_lift: None,
            quot_ind: None,
            nat: None,
            nat_zero: None,
            nat_succ: None,
            nat_add: None,
            nat_sub: None,
            nat_mul: None,
            nat_pow: None,
            nat_mod: None,
            nat_div: None,
            nat_div_go: None,
            nat_mod_core_go: None,
            nat_beq: None,
            nat_ble: None,
            nat_gcd: None,
            nat_xor: None,
            nat_land: None,
            nat_lor: None,
            nat_shr: None,
            nat_shl: None,
            string: None,
            string_of_list: None,
            bool_false: None,
            bool_true: None,
            char: None,
            char_of_nat: None,
            list: None,
            list_nil: None,
            list_cons: None,
        }
    }
}

/// The pointers of a declaration's head are valid.
pub open spec fn info_fits(st: Stores, i: DeclarInfo) -> bool {
    st.has_name(i.name) && st.has_levels(i.uparams) && st.has_expr(i.ty)
}

/// The pointers of the list are valid.
pub open spec fn names_fit(st: Stores, ns: Seq<NamePtr>) -> bool {
    forall|i: int| 0 <= i < ns.len() ==> st.has_name(#[trigger] ns[i])
}

/// The pointers of the declaration are valid.
pub open spec fn declar_fits(st: Stores, d: Declar) -> bool {
    &&& info_fits(st, d.about())
    &&& match d {
        Declar::Axiom { .. } => true,
        Declar::Quot { .. } => true,
        Declar::Theorem { val, .. } => st.has_expr(val),
        Declar::Definition { val, .. } => st.has_expr(val),
        Declar::Opaque { val, .. } => st.has_expr(val),
        Declar::Inductive(i) => names_fit(st, i.all_ctor_names@),
        Declar::Constructor(c) => st.has_name(c.inductive_name),
        Declar::Recursor(r) => {
            &&& names_fit(st, r.all_inductives@)
            &&& forall|i: int|
                0 <= i < r.rec_rules@.len() ==> st.has_name(
                    (#[trigger] r.rec_rules@[i]).ctor_name,
                ) && st.has_expr(r.rec_rules@[i].val)
        },
    }
}

/// The pointers of the declarations are valid.
pub open spec fn declars_fit(st: Stores, ds: Seq<Declar>) -> bool {
    forall|i: int| 0 <= i < ds.len() ==> declar_fits(st, #[trigger] ds[i])
}

/// What checking sessions share.
pub struct ExportFile {
    pub dag: Dag,
    pub anon: NamePtr,
    pub zero: LevelPtr,
    pub declars: DeclarMap,
    pub name_cache: NameCache,
    pub config: Config,
}

impl ExportFile {
    /// The shared store alone.
    pub open spec fn stores(self) -> Stores {
        Stores { shared: None, own: self.dag }
    }

    /// The file is well formed.
    pub closed spec fn wf(self) -> bool {
        &&& self.stores().ok()
        &&& self.stores().has_name(self.anon)
        &&& self.anon@ == Nm::Anon
        &&& self.stores().has_level(self.zero)
        &&& self.zero@ == Lv::Zero
        &&& self.declars.wf()
        &&& declars_fit(self.stores(), self.declars.declars())
        &&& self.name_cache.fits(self.stores())
        &&& self.dag.bignums is Some <==> self.config.nat_extension
    }
}

impl ExportFile {
    /// The pointers of the declaration are valid.
    pub closed spec fn has_declar(self, d: Declar) -> bool {
        declar_fits(self.stores(), d)
    }

    /// The pointers of the declaration's head are valid.
    pub closed spec fn has_info(self, i: DeclarInfo) -> bool {
        info_fits(self.stores(), i)
    }

    /// The declarations of the file are valid, and each is declared once.
    pub proof fn declars_ok(self)
        requires
            self.wf(),
        ensures
            self.declars.wf(),
            forall|i: int|
                0 <= i < self.declars.declars().len() ==> self.has_declar(
                    #[trigger] self.declars.declars()[i],
                ),
    {
    }
}

/// The context of one session, on top of the export file; or, with no export file below
/// it, a store that is being filled to become one.
pub struct TcCtx<'t> {
    pub base: Option<&'t ExportFile>,
    pub dag: Dag,
    pub anon: NamePtr,
    pub zero: LevelPtr,
    pub name_cache: NameCache,
    pub nat_extension: bool,
    pub string_extension: bool,
    pub dbj_level_counter: u16,
    pub unique_counter: u32,
}

impl<'t> TcCtx<'t> {
    /// The shared store and the session's.
    pub closed spec fn stores(self) -> Stores {
        Stores {
            shared: match self.base {
                Some(f) => Some(f.dag),
                None => None,
            },
            own: self.dag,
        }
    }

    /// The pointer is valid.
    pub closed spec fn has_string(self, p: StringPtr) -> bool {
        self.stores().has_string(p)
    }

    /// The pointer is valid.
    pub closed spec fn has_name(self, p: NamePtr) -> bool {
        self.stores().has_name(p)
    }

    /// The pointer is valid.
    pub closed spec fn has_level(self, p: LevelPtr) -> bool {
        self.stores().has_level(p)
    }

    /// The pointer is valid.
    pub closed spec fn has_levels(self, p: LevelsPtr) -> bool {
        self.stores().has_levels(p)
    }

    /// The pointer is valid.
    pub closed spec fn has_big(self, p: BigUintPtr) -> bool {
        self.stores().has_big(p)
    }

    /// The pointer is valid.
    pub closed spec fn has_expr(self, p: ExprPtr) -> bool {
        self.stores().has_expr(p)
    }

    /// The pointers of the list are valid.
    pub open spec fn has_exprs(self, ps: Seq<ExprPtr>) -> bool {
        forall|i: int| 0 <= i < ps.len() ==> self.has_expr(#[trigger] ps[i])
    }

    /// The context is well formed: every stored node is valid and no tree is stored twice.
    pub closed spec fn wf(self) -> bool {
        &&& self.stores().ok()
        &&& self.stores().has_name(self.anon)
        &&& self.anon@ == Nm::Anon
        &&& self.stores().has_level(self.zero)
        &&& self.zero@ == Lv::Zero
        &&& self.name_cache.fits(self.stores())
        &&& self.dag.bignums is Some <==> self.nat_extension
        &&& self.base matches Some(f) ==> {
            &&& f.wf()
            &&& f.anon == self.anon
            &&& f.zero == self.zero
            &&& f.name_cache == self.name_cache
            &&& f.config.nat_extension == self.nat_extension
            &&& f.config.string_extension == self.string_extension
        }
    }

    /// Whatever is valid here is valid there, and what is fixed for a session is the same.
    pub open spec fn extended_by(self, other: Self) -> bool {
        &&& self.base == other.base
        &&& self.anon == other.anon
        &&& self.zero == other.zero
        &&& self.name_cache == other.name_cache
        &&& self.nat_extension == other.nat_extension
        &&& self.string_extension == other.string_extension
        &&& forall|p: StringPtr| self.has_string(p) ==> #[trigger] other.has_string(p)
        &&& forall|p: NamePtr| self.has_name(p) ==> #[trigger] other.has_name(p)
        &&& forall|p: LevelPtr| self.has_level(p) ==> #[trigger] other.has_level(p)
        &&& forall|p: LevelsPtr| self.has_levels(p) ==> #[trigger] other.has_levels(p)
        &&& forall|p: BigUintPtr| self.has_big(p) ==> #[trigger] other.has_big(p)
        &&& forall|p: ExprPtr| self.has_expr(p) ==> #[trigger] other.has_expr(p)
    }

    /// The other context extends this one, and as many binders are open in it, and as many
    /// variables were made.
    pub open spec fn grows_to(self, other: Self) -> bool {
        &&& self.extended_by(other)
        &&& self.unique_counter == other.unique_counter
        &&& self.dbj_level_counter == other.dbj_level_counter
    }

    /// The parts of the name are valid, and so is its hash.
    pub open spec fn name_fits(self, n: Name) -> bool {
        &&& n.hash_ok()
        &&& match n {
            Name::Anon => true,
            Name::Str(p, s, _) => self.has_name(p) && self.has_string(s),
            Name::Num(p, _, _) => self.has_name(p),
        }
    }

    /// The parts of the level are valid, and so is its hash.
    pub open spec fn level_fits(self, l: Level) -> bool {
        &&& l.hash_ok()
        &&& match l {
            Level::Zero => true,
            Level::Succ(a, _) => self.has_level(a),
            Level::Max(a, b, _) => self.has_level(a) && self.has_level(b),
            Level::IMax(a, b, _) => self.has_level(a) && self.has_level(b),
            Level::Param(n, _) => self.has_name(n),
        }
    }

    /// The levels of the list are valid.
    pub open spec fn list_fits(self, ls: Seq<LevelPtr>) -> bool {
        forall|i: int| 0 <= i < ls.len() ==> self.has_level(#[trigger] ls[i])
    }

    /// The pointers in the term are valid.
    pub open spec fn parts_fit(self, e: Expr) -> bool {
        match e {
            Expr::Var { .. } => true,
            Expr::Sort { level, .. } => self.has_level(level),
            Expr::Const { name, levels, .. } => self.has_name(name) && self.has_levels(levels),
            Expr::App { fun, arg, .. } => self.has_expr(fun) && self.has_expr(arg),
            Expr::Lambda { binder_name, binder_type, body, .. } => {
                self.has_name(binder_name) && self.has_expr(binder_type) && self.has_expr(body)
            },
            Expr::Pi { binder_name, binder_type, body, .. } => {
                self.has_name(binder_name) && self.has_expr(binder_type) && self.has_expr(body)
            },
            Expr::Let { binder_name, binder_type, val, body, .. } => {
                self.has_name(binder_name) && self.has_expr(binder_type) && self.has_expr(val)
                    && self.has_expr(body)
            },
            Expr::Local { binder_name, binder_type, .. } => {
                self.has_name(binder_name) && self.has_expr(binder_type)
            },
            Expr::Proj { ty_name, structure, .. } => {
                self.has_name(ty_name) && self.has_expr(structure)
            },
            Expr::NatLit { ptr, .. } => self.has_big(ptr),
            Expr::StringLit { ptr, .. } => self.has_string(ptr),
        }
    }

    /// The parts of the term are valid, and so is what it says of them. Free variables
    /// belong to a session.
    pub open spec fn expr_fits(self, e: Expr) -> bool {
        &&& e.hash_ok()
        &&& e.info_ok()
        &&& self.parts_fit(e)
        &&& e is Local ==> self.base is Some
    }

    /// Two valid pointers to names are the same exactly if the names are equal.
    pub proof fn names_unique(self, p: NamePtr, q: NamePtr)
        requires
            self.wf(),
            self.has_name(p),
            self.has_name(q),
        ensures
            p.at(q) <==> p@ == q@,
    {
    }

    /// Two valid pointers to levels are the same exactly if the levels are equal.
    pub proof fn levels_unique(self, p: LevelPtr, q: LevelPtr)
        requires
            self.wf(),
            self.has_level(p),
            self.has_level(q),
        ensures
            p.at(q) <==> p@ == q@,
    {
    }

    /// Two valid pointers to lists of levels are the same exactly if the lists are equal.
    pub proof fn lists_unique(self, p: LevelsPtr, q: LevelsPtr)
        requires
            self.wf(),
            self.has_levels(p),
            self.has_levels(q),
        ensures
            p.at(q) <==> p@ == q@,
    {
    }

    /// Two valid pointers to terms are the same exactly if the terms are equal.
    pub proof fn exprs_unique(self, p: ExprPtr, q: ExprPtr)
        requires
            self.wf(),
            self.has_expr(p),
            self.has_expr(q),
        ensures
            p.at(q) <==> p@ == q@,
    {
    }

    /// Two valid pointers to strings are the same exactly if the strings are equal.
    pub proof fn strings_unique(self, p: StringPtr, q: StringPtr)
        requires
            self.wf(),
            self.has_string(p),
            self.has_string(q),
        ensures
            p.at(q) <==> p@ == q@,
    {
    }

    /// Two valid pointers to numbers are the same exactly if the numbers are equal.
    pub proof fn bignums_unique(self, p: BigUintPtr, q: BigUintPtr)
        requires
            self.wf(),
            self.has_big(p),
            self.has_big(q),
        ensures
            p.at(q) <==> p@ == q@,
    {
    }

    proof fn grown(self, other: Self)
        requires
            self.wf(),
            self.stores().within(other.stores()),
            other.stores().ok(),
            self.base == other.base,
            self.anon == other.anon,
            self.zero == other.zero,
            self.name_cache == other.name_cache,
            self.nat_extension == other.nat_extension,
            self.string_extension == other.string_extension,
            self.dbj_level_counter == other.dbj_level_counter,
            self.unique_counter == other.unique_counter,
            self.dag.bignums is Some <==> other.dag.bignums is Some,
        ensures
            other.wf(),
            self.grows_to(other),
    {
    }

    /// The context of a session.
    pub fn new(export_file: &'t ExportFile) -> (r: Self)
        requires
            export_file.wf(),
        ensures
            r.wf(),
            r.base == Some(export_file),
            r.name_cache == export_file.name_cache,
            r.nat_extension == export_file.config.nat_extension,
            r.string_extension == export_file.config.string_extension,
            r.dbj_level_counter == 0,
            r.unique_counter == 0,
    {
        let dag = Dag::new(export_file.config.nat_extension);
        let r = TcCtx {
            base: Some(export_file),
            dag,
            anon: export_file.anon,
            zero: export_file.zero,
            name_cache: export_file.name_cache,
            nat_extension: export_file.config.nat_extension,
            string_extension: export_file.config.string_extension,
            dbj_level_counter: 0,
            unique_counter: 0,
        };
        proof {
            r.stores().fresh();
        }
        r
    }

    /// A store that is to become an export file, with nothing in it but the anonymous name
    /// and the level zero.
    pub fn loading(nat_extension: bool, string_extension: bool) -> (r: TcCtx<'t>)
        ensures
            r.wf(),
            r.base is None,
            r.nat_extension == nat_extension,
            r.string_extension == string_extension,
            r.dbj_level_counter == 0,
    {
        let mut dag = Dag::new(nat_extension);
        let ghost start = Stores { shared: None, own: dag };
        proof {
            start.fresh();
        }
        let a: usize = dag.names.insert(Name::Anon);
        let ghost named = Stores { shared: None, own: dag };
        proof {
            start.add_name(named, Name::Anon);
        }
        let z: usize = dag.levels.insert(Level::Zero);
        proof {
            named.add_level(Stores { shared: None, own: dag }, Level::Zero);
        }
        TcCtx {
            base: None,
            dag,
            anon: Ptr::global(a, Ghost(Nm::Anon)),
            zero: Ptr::global(z, Ghost(Lv::Zero)),
            name_cache: NameCache::none(),
            nat_extension,
            string_extension,
            dbj_level_counter: 0,
            unique_counter: 0,
        }
    }

    /// The export file of what was stored, with the given declarations.
    pub fn into_export_file(self, declars: DeclarMap, config: Config) -> (r: ExportFile)
        requires
            self.wf(),
            self.base is None,
            declars.wf(),
            self.has_declars(declars.declars()),
            config.nat_extension == self.nat_extension,
        ensures
            r.wf(),
            r.declars == declars,
            r.config == config,
            r.dag == self.dag,
            r.dag.knows_names(r.name_cache),
    {
        let name_cache = self.dag.mk_name_cache(self.anon);
        let r = ExportFile {
            dag: self.dag,
            anon: self.anon,
            zero: self.zero,
            declars,
            name_cache,
            config,
        };
        proof {
            let st = r.stores();
            assert(st == self.stores());
            let ds = declars.declars();
            assert forall|i: int| 0 <= i < ds.len() implies declar_fits(st, #[trigger] ds[i]) by {
                assert(self.has_declar(ds[i]));
            }
        }
        r
    }

    /// Reads a name.
    pub fn read_name(&self, p: NamePtr) -> (r: Name)
        requires
            self.wf(),
            self.has_name(p),
        ensures
            r.tree() == p@,
            self.name_fits(r),
    {
        proof {
            self.stores().name_node_ok(p);
        }
        match self.base {
            Some(f) => if p.local {
                self.dag.names.nodes[p.idx]
            } else {
                f.dag.names.nodes[p.idx]
            },
            None => self.dag.names.nodes[p.idx],
        }
    }

    /// Reads two names.
    pub fn read_name_pr(&self, p: NamePtr, q: NamePtr) -> (r: (Name, Name))
        requires
            self.wf(),
            self.has_name(p),
            self.has_name(q),
        ensures
            r.0.tree() == p@,
            self.name_fits(r.0),
            r.1.tree() == q@,
            self.name_fits(r.1),
    {
        (self.read_name(p), self.read_name(q))
    }

    /// Reads a level.
    pub fn read_level(&self, p: LevelPtr) -> (r: Level)
        requires
            self.wf(),
            self.has_level(p),
        ensures
            r.tree() == p@,
            self.level_fits(r),
    {
        proof {
            self.stores().level_node_ok(p);
        }
        match self.base {
            Some(f) => if p.local {
                self.dag.levels.nodes[p.idx]
            } else {
                f.dag.levels.nodes[p.idx]
            },
            None => self.dag.levels.nodes[p.idx],
        }
    }

    /// Reads two levels.
    pub fn read_level_pair(&self, a: LevelPtr, x: LevelPtr) -> (r: (Level, Level))
        requires
            self.wf(),
            self.has_level(a),
            self.has_level(x),
        ensures
            r.0.tree() == a@,
            self.level_fits(r.0),
            r.1.tree() == x@,
            self.level_fits(r.1),
    {
        (self.read_level(a), self.read_level(x))
    }

    /// Reads a term.
    pub fn read_expr(&self, p: ExprPtr) -> (r: Expr)
        requires
            self.wf(),
            self.has_expr(p),
        ensures
            r.tree() == p@,
            self.expr_fits(r),
    {
        *self.read_expr_ref(p)
    }

    /// Reads a term in place.
    pub fn read_expr_ref(&self, p: ExprPtr) -> (r: &Expr)
        requires
            self.wf(),
            self.has_expr(p),
        ensures
            r.tree() == p@,
            self.expr_fits(*r),
    {
        proof {
            self.stores().expr_node_ok(p);
        }
        match self.base {
            Some(f) => if p.local {
                &self.dag.exprs.nodes[p.idx]
            } else {
                &f.dag.exprs.nodes[p.idx]
            },
            None => &self.dag.exprs.nodes[p.idx],
        }
    }

    /// Reads two terms.
    pub fn read_expr_pair(&self, a: ExprPtr, x: ExprPtr) -> (r: (Expr, Expr))
        requires
            self.wf(),
            self.has_expr(a),
            self.has_expr(x),
        ensures
            r.0.tree() == a@,
            self.expr_fits(r.0),
            r.1.tree() == x@,
            self.expr_fits(r.1),
    {
        (self.read_expr(a), self.read_expr(x))
    }

    /// Reads a string.
    pub fn read_string(&self, p: StringPtr) -> (r: &String)
        requires
            self.wf(),
            self.has_string(p),
        ensures
            r@ == p@,
    {
        match self.base {
            Some(f) => if p.local {
                &self.dag.strings.nodes[p.idx]
            } else {
                &f.dag.strings.nodes[p.idx]
            },
            None => &self.dag.strings.nodes[p.idx],
        }
    }

    /// Reads a number. Valid pointers to numbers exist only where the extension is on, so
    /// there is one.
    pub fn read_bignum(&self, p: BigUintPtr) -> (r: Option<&BigNat>)
        requires
            self.wf(),
            self.has_big(p),
        ensures
            r matches Some(n) && n@ == p@ && n.wf(),
    {
        proof {
            self.stores().big_node_ok(p);
        }
        let store = match self.base {
            Some(f) => if p.local {
                &self.dag.bignums
            } else {
                &f.dag.bignums
            },
            None => &self.dag.bignums,
        };
        match store {
            Some(b) => Some(&b.nodes[p.idx]),
            None => None,
        }
    }

    /// Reads a list of levels.
    pub fn read_levels(&self, p: LevelsPtr) -> (r: &Vec<LevelPtr>)
        requires
            self.wf(),
            self.has_levels(p),
        ensures
            level_trees(r@) == p@,
            self.list_fits(r@),
    {
        proof {
            self.stores().list_node_ok(p);
        }
        match self.base {
            Some(f) => if p.local {
                &self.dag.uparams.nodes[p.idx].items
            } else {
                &f.dag.uparams.nodes[p.idx].items
            },
            None => &self.dag.uparams.nodes[p.idx].items,
        }
    }

    /// The pointer to a name, which is stored where it is not there yet.
    pub fn alloc_name(&mut self, n: Name) -> (r: NamePtr)
        requires
            old(self).wf(),
            old(self).name_fits(n),
        ensures
            final(self).wf(),
            old(self).grows_to(*final(self)),
            final(self).has_name(r),
            r@ == n.tree(),
    {
        let ghost st = self.stores();
        proof {
            assert forall|p: NamePtr| #[trigger] st.has_name(p) implies (p@ == n.tree()
                <==> st.name_node(p).like(&n)) by {
                st.name_node_ok(p);
                st.name_like(st.name_node(p), n);
            }
        }
        match self.base {
            Some(f) => {
                if let Some(i) = f.dag.names.get(&n) {
                    let p = Ptr::global(i, Ghost(f.dag.names.nodes@[i as int].tree()));
                    assert(st.has_name(p));
                    return p;
                }
            },
            None => {},
        }
        let local = self.base.is_some();
        match self.dag.names.get(&n) {
            Some(i) => {
                let p = Ptr { idx: i, local, tree: Ghost(self.dag.names.nodes@[i as int].tree()) };
                assert(st.has_name(p));
                p
            },
            None => {
                let i = self.dag.names.insert(n);
                proof {
                    st.add_name(self.stores(), n);
                    old(self).grown(*self);
                }
                Ptr { idx: i, local, tree: Ghost(n.tree()) }
            },
        }
    }

    /// The pointer to a level, which is stored where it is not there yet.
    pub fn alloc_level(&mut self, l: Level) -> (r: LevelPtr)
        requires
            old(self).wf(),
            old(self).level_fits(l),
        ensures
            final(self).wf(),
            old(self).grows_to(*final(self)),
            final(self).has_level(r),
            r@ == l.tree(),
    {
        let ghost st = self.stores();
        proof {
            assert forall|p: LevelPtr| #[trigger] st.has_level(p) implies (p@ == l.tree()
                <==> st.level_node(p).like(&l)) by {
                st.level_node_ok(p);
                st.level_like(st.level_node(p), l);
            }
        }
        match self.base {
            Some(f) => {
                if let Some(i) = f.dag.levels.get(&l) {
                    let p = Ptr::global(i, Ghost(f.dag.levels.nodes@[i as int].tree()));
                    assert(st.has_level(p));
                    return p;
                }
            },
            None => {},
        }
        let local = self.base.is_some();
        match self.dag.levels.get(&l) {
            Some(i) => {
                let p = Ptr { idx: i, local, tree: Ghost(self.dag.levels.nodes@[i as int].tree()) };
                assert(st.has_level(p));
                p
            },
            None => {
                let i = self.dag.levels.insert(l);
                proof {
                    st.add_level(self.stores(), l);
                    old(self).grown(*self);
                }
                Ptr { idx: i, local, tree: Ghost(l.tree()) }
            },
        }
    }

    /// The pointer to a term, which is stored where it is not there yet.
    pub fn alloc_expr(&mut self, e: Expr) -> (r: ExprPtr)
        requires
            old(self).wf(),
            old(self).expr_fits(e),
        ensures
            final(self).wf(),
            old(self).grows_to(*final(self)),
            final(self).has_expr(r),
            r@ == e.tree(),
            r.local <==> old(self).base is Some && forall|p: ExprPtr|
                #[trigger] old(self).has_expr(p) && !p.local ==> p@ != e.tree(),
            old(self).base is Some && crate::expr::refers_to_session(e) ==> r.local,
    {
        let ghost st = self.stores();
        proof {
            assert forall|p: ExprPtr| #[trigger] st.has_expr(p) implies (p@ == e.tree()
                <==> st.expr_node(p).like(&e)) by {
                st.expr_node_ok(p);
                st.expr_like(st.expr_node(p), e);
            }
        }
        let local = self.base.is_some();
        if let Some(i) = self.dag.exprs.get(&e) {
            let p = Ptr { idx: i, local, tree: Ghost(self.dag.exprs.nodes@[i as int].tree()) };
            assert(st.has_expr(p));
            return p;
        }
        if !is_expr_local_only(&e) {
            match self.base {
                Some(f) => {
                    if let Some(i) = f.dag.exprs.get(&e) {
                        let p = Ptr::global(i, Ghost(f.dag.exprs.nodes@[i as int].tree()));
                        assert(st.has_expr(p));
                        return p;
                    }
                },
                None => {},
            }
        } else {
            proof {
                assert forall|p: ExprPtr| #[trigger] st.has_expr(p) && !p.local
                    && st.shared is Some implies !st.expr_node(p).like(&e) by {
                    let below = Stores { shared: None, own: st.shared->0 };
                    assert(below.expr_ok(below.own.exprs.nodes@[p.idx as int]));
                }
            }
        }
        let i = self.dag.exprs.insert(e);
        proof {
            st.add_expr(self.stores(), e);
            old(self).grown(*self);
        }
        Ptr { idx: i, local, tree: Ghost(e.tree()) }
    }

    /// The pointer to a string, which is stored where it is not there yet.
    pub fn alloc_string(&mut self, s: String) -> (r: StringPtr)
        requires
            old(self).wf(),
        ensures
            final(self).wf(),
            old(self).grows_to(*final(self)),
            final(self).has_string(r),
            r@ == s@,
    {
        let ghost st = self.stores();
        match self.base {
            Some(f) => {
                if let Some(i) = f.dag.strings.get(&s) {
                    let p = Ptr::global(i, Ghost(s@));
                    assert(st.has_string(p));
                    return p;
                }
            },
            None => {},
        }
        let local = self.base.is_some();
        let ghost view = s@;
        match self.dag.strings.get(&s) {
            Some(i) => {
                let p = Ptr { idx: i, local, tree: Ghost(view) };
                assert(st.has_string(p));
                p
            },
            None => {
                let i = self.dag.strings.insert(s);
                proof {
                    st.add_string(self.stores(), s);
                    old(self).grown(*self);
                }
                Ptr { idx: i, local, tree: Ghost(view) }
            },
        }
    }

    /// The pointer to a number, which is stored where it is not there yet. There is one
    /// exactly if the extension is on.
    pub fn alloc_bignum(&mut self, n: BigNat) -> (r: Option<BigUintPtr>)
        requires
            old(self).wf(),
            n.wf(),
        ensures
            final(self).wf(),
            old(self).grows_to(*final(self)),
            r is Some <==> old(self).nat_extension,
            r matches Some(p) ==> final(self).has_big(p) && p@ == n@,
    {
        let ghost st = self.stores();
        let ghost view = n@;
        proof {
            assert forall|p: BigUintPtr| #[trigger] st.has_big(p) implies (p@ == n@ <==> st.big_node(
                p,
            ).like(&n)) by {
                st.big_node_ok(p);
                if p@ == n@ {
                    canonical_digits_unique(st.big_node(p).digits@, n.digits@);
                }
            }
        }
        match self.base {
            Some(f) => {
                if let Some(global) = &f.dag.bignums {
                    if let Some(i) = global.get(&n) {
                        let p = Ptr::global(i, Ghost(global.nodes@[i as int]@));
                        assert(st.has_big(p));
                        return Some(p);
                    }
                }
            },
            None => {},
        }
        let local = self.base.is_some();
        let mut store: Option<Interner<BigNat>> = None;
        std::mem::swap(&mut store, &mut self.dag.bignums);
        match store {
            None => {
                self.dag.bignums = None;
                None
            },
            Some(mut b) => {
                match b.get(&n) {
                    Some(i) => {
                        let p = Ptr { idx: i, local, tree: Ghost(b.nodes@[i as int]@) };
                        assert(st.has_big(p));
                        self.dag.bignums = Some(b);
                        Some(p)
                    },
                    None => {
                        let i = b.insert(n);
                        self.dag.bignums = Some(b);
                        proof {
                            st.add_big(self.stores(), n);
                            old(self).grown(*self);
                        }
                        Some(Ptr { idx: i, local, tree: Ghost(view) })
                    },
                }
            },
        }
    }

    /// The pointer to a list of levels, which is stored where it is not there yet.
    pub fn alloc_levels(&mut self, ls: Vec<LevelPtr>) -> (r: LevelsPtr)
        requires
            old(self).wf(),
            old(self).list_fits(ls@),
        ensures
            final(self).wf(),
            old(self).grows_to(*final(self)),
            final(self).has_levels(r),
            r@ == level_trees(ls@),
    {
        let ghost st = self.stores();
        let n = LevelList { items: ls };
        proof {
            assert forall|p: LevelsPtr| #[trigger] st.has_levels(p) implies (p@ == n.tree()
                <==> st.list_node(p).like(&n)) by {
                st.list_node_ok(p);
                st.list_like(st.list_node(p), n);
            }
        }
        match self.base {
            Some(f) => {
                if let Some(i) = f.dag.uparams.get(&n) {
                    let p = LevelsPtr::global(i, Ghost(f.dag.uparams.nodes@[i as int].tree()));
                    assert(st.has_levels(p));
                    return p;
                }
            },
            None => {},
        }
        let local = self.base.is_some();
        match self.dag.uparams.get(&n) {
            Some(i) => {
                let p = LevelsPtr {
                    idx: i,
                    local,
                    tree: Ghost(self.dag.uparams.nodes@[i as int].tree()),
                };
                assert(st.has_levels(p));
                p
            },
            None => {
                let i = self.dag.uparams.insert(n);
                proof {
                    st.add_levels(self.stores(), n);
                    old(self).grown(*self);
                }
                LevelsPtr { idx: i, local, tree: Ghost(n.tree()) }
            },
        }
    }

    /// The pointer to a list of levels.
    pub fn alloc_levels_slice(&mut self, ls: Vec<LevelPtr>) -> (r: LevelsPtr)
        requires
            old(self).wf(),
            old(self).list_fits(ls@),
        ensures
            final(self).wf(),
            old(self).grows_to(*final(self)),
            final(self).has_levels(r),
            r@ == level_trees(ls@),
    {
        self.alloc_levels(ls)
    }

    /// The anonymous name and the level zero are always there, and so are the known names.
    pub proof fn fixed_nodes(self)
        requires
            self.wf(),
        ensures
            self.has_name(self.anon),
            self.anon@ == Nm::Anon,
            self.has_level(self.zero),
            self.zero@ == Lv::Zero,
    {
    }

    /// Sets the number of open binders.
    pub fn set_depth(&mut self, depth: u16)
        requires
            old(self).wf(),
        ensures
            final(self).wf(),
            old(self).extended_by(*final(self)),
            final(self).dbj_level_counter == depth,
            final(self).unique_counter == old(self).unique_counter,
    {
        self.dbj_level_counter = depth;
    }

    /// Sets the number of the next unique variable.
    pub fn set_unique(&mut self, n: u32)
        requires
            old(self).wf(),
        ensures
            final(self).wf(),
            old(self).extended_by(*final(self)),
            final(self).dbj_level_counter == old(self).dbj_level_counter,
            final(self).unique_counter == n,
    {
        self.unique_counter = n;
    }

    /// The name, if it is known, is valid.
    pub open spec fn knows(self, n: Option<NamePtr>) -> bool {
        n matches Some(p) ==> self.has_name(p)
    }

    /// The known names are valid.
    pub proof fn known_names(self)
        requires
            self.wf(),
        ensures
            self.knows(self.name_cache.quot),
            self.knows(self.name_cache.quot_mk),
            self.knows(self.name_cache.quot_lift),
            self.knows(self.name_cache.quot_ind),
            self.knows(self.name_cache.nat),
            self.knows(self.name_cache.nat_zero),
            self.knows(self.name_cache.nat_succ),
            self.knows(self.name_cache.nat_add),
            self.knows(self.name_cache.nat_sub),
            self.knows(self.name_cache.nat_mul),
            self.knows(self.name_cache.nat_pow),
            self.knows(self.name_cache.nat_mod),
            self.knows(self.name_cache.nat_div),
            self.knows(self.name_cache.nat_div_go),
            self.knows(self.name_cache.nat_mod_core_go),
            self.knows(self.name_cache.nat_beq),
            self.knows(self.name_cache.nat_ble),
            self.knows(self.name_cache.nat_gcd),
            self.knows(self.name_cache.nat_xor),
            self.knows(self.name_cache.nat_land),
            self.knows(self.name_cache.nat_lor),
            self.knows(self.name_cache.nat_shr),
            self.knows(self.name_cache.nat_shl),
            self.knows(self.name_cache.string),
            self.knows(self.name_cache.string_of_list),
            self.knows(self.name_cache.bool_false),
            self.knows(self.name_cache.bool_true),
            self.knows(self.name_cache.char),
            self.knows(self.name_cache.char_of_nat),
            self.knows(self.name_cache.list),
            self.knows(self.name_cache.list_nil),
            self.knows(self.name_cache.list_cons),
    {
    }

    /// The pointers of the list are valid.
    pub open spec fn has_names(self, ns: Seq<NamePtr>) -> bool {
        forall|i: int| 0 <= i < ns.len() ==> self.has_name(#[trigger] ns[i])
    }

    /// The pointers of a declaration's head are valid.
    pub open spec fn has_info(self, i: DeclarInfo) -> bool {
        self.has_name(i.name) && self.has_levels(i.uparams) && self.has_expr(i.ty)
    }

    /// The pointers of the declaration are valid.
    pub open spec fn has_declar(self, d: Declar) -> bool {
        &&& self.has_info(d.about())
        &&& match d {
            Declar::Axiom { .. } => true,
            Declar::Quot { .. } => true,
            Declar::Theorem { val, .. } => self.has_expr(val),
            Declar::Definition { val, .. } => self.has_expr(val),
            Declar::Opaque { val, .. } => self.has_expr(val),
            Declar::Inductive(i) => self.has_names(i.all_ctor_names@),
            Declar::Constructor(c) => self.has_name(c.inductive_name),
            Declar::Recursor(r) => {
                &&& self.has_names(r.all_inductives@)
                &&& forall|i: int|
                    0 <= i < r.rec_rules@.len() ==> self.has_name(
                        (#[trigger] r.rec_rules@[i]).ctor_name,
                    ) && self.has_expr(r.rec_rules@[i].val)
            },
        }
    }

    /// The pointers of the declarations are valid.
    pub open spec fn has_declars(self, ds: Seq<Declar>) -> bool {
        forall|i: int| 0 <= i < ds.len() ==> self.has_declar(#[trigger] ds[i])
    }

    /// The declarations of the export file are valid in a session on top of it.
    pub proof fn shared_declars(self)
        requires
            self.wf(),
        ensures
            self.base matches Some(f) ==> f.declars.wf() && self.has_declars(f.declars.declars()),
    {
        if let Some(f) = self.base {
            let below = f.stores();
            assert(forall|p: NamePtr| below.has_name(p) ==> #[trigger] self.has_name(p));
            assert(forall|p: LevelsPtr| below.has_levels(p) ==> #[trigger] self.has_levels(p));
            assert(forall|p: ExprPtr| below.has_expr(p) ==> #[trigger] self.has_expr(p));
            let ds = f.declars.declars();
            assert forall|i: int| 0 <= i < ds.len() implies self.has_declar(#[trigger] ds[i]) by {
                assert(declar_fits(below, ds[i]));
            }
        }
    }

    /// A declaration that is valid in the export file is valid in a session on top of it.
    pub proof fn shared_declar(self, d: Declar)
        requires
            self.wf(),
            self.base is Some,
            self.base->0.has_declar(d),
        ensures
            self.has_declar(d),
    {
        let below = self.base->0.stores();
        assert(forall|p: NamePtr| below.has_name(p) ==> #[trigger] self.has_name(p));
        assert(forall|p: LevelsPtr| below.has_levels(p) ==> #[trigger] self.has_levels(p));
        assert(forall|p: ExprPtr| below.has_expr(p) ==> #[trigger] self.has_expr(p));
    }

    /// The head of a declaration that is valid in the export file is valid in a session on
    /// top of it.
    pub proof fn shared_info(self, i: DeclarInfo)
        requires
            self.wf(),
            self.base is Some,
            self.base->0.has_info(i),
        ensures
            self.has_info(i),
    {
    }
}

} // verus!
