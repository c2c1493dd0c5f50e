pub mod accepting;
pub mod answers;
pub mod arithmetic;
pub mod bignum;
pub mod cache;
pub mod checked;
pub mod checker;
pub mod config;
pub mod ctx;
pub mod dag;
pub mod declar;
pub mod defeq;
pub mod env;
pub mod eval;
pub mod expr;
pub mod force;
pub mod fuel;
pub mod hash;
pub mod infer;
pub mod judge;
pub mod known;
pub mod laws;
pub mod level;
pub mod lits;
pub mod make;
pub mod name;
pub mod natval;
pub mod numbers;
pub mod ops;
pub mod ptr;
pub mod reducing;
pub mod relevance;
pub mod rest;
pub mod sig;
pub mod stable;
pub mod steps;
pub mod strong;
pub mod tc;
pub mod tree;
pub mod typing;
pub mod union_find;
pub mod universe;
pub mod value;
pub mod vcache;
pub mod vtype;
pub mod whnf;
pub mod work;
