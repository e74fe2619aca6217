//! The closed instruction vocabulary as one catalogue.
//!
//! The catalogue fixes a canonical order over all 141 instruction tags:
//! domain by domain (boolean, code, exec, float, integer, name), each in its
//! declaration order.  The code-domain introspection instruction pushes this
//! list, and the random-code generator draws instruction atoms from it.

use crate::program::{Boolean, Code, Exec, Float, Instruction, Integer, Name};
use vstd::prelude::*;

verus! {

/// How many instruction tags the vocabulary holds.
pub const CATALOG_LEN: usize = 141;

/// Every instruction tag, in the canonical order.
pub open spec fn catalog_spec() -> Seq<Instruction> {
    boolean_tags() + code_tags() + exec_tags() + float_tags() + integer_tags() + name_tags()
}

/// The boolean-domain tags, in declaration order.
pub open spec fn boolean_tags() -> Seq<Instruction> {
    seq![
        Instruction::Boolean(Boolean::Eq),
        Instruction::Boolean(Boolean::And),
        Instruction::Boolean(Boolean::Define),
        Instruction::Boolean(Boolean::Dup),
        Instruction::Boolean(Boolean::Flush),
        Instruction::Boolean(Boolean::FromFloat),
        Instruction::Boolean(Boolean::FromInteger),
        Instruction::Boolean(Boolean::Not),
        Instruction::Boolean(Boolean::Or),
        Instruction::Boolean(Boolean::Pop),
        Instruction::Boolean(Boolean::Rand),
        Instruction::Boolean(Boolean::Rot),
        Instruction::Boolean(Boolean::Shove),
        Instruction::Boolean(Boolean::StackDepth),
        Instruction::Boolean(Boolean::Swap),
        Instruction::Boolean(Boolean::Yank),
        Instruction::Boolean(Boolean::YankDup),
    ]
}

fn push_boolean_tags(v: &mut Vec<Instruction>)
    ensures
        final(v)@ == old(v)@ + boolean_tags(),
{
    v.push(Instruction::Boolean(Boolean::Eq));
    v.push(Instruction::Boolean(Boolean::And));
    v.push(Instruction::Boolean(Boolean::Define));
    v.push(Instruction::Boolean(Boolean::Dup));
    v.push(Instruction::Boolean(Boolean::Flush));
    v.push(Instruction::Boolean(Boolean::FromFloat));
    v.push(Instruction::Boolean(Boolean::FromInteger));
    v.push(Instruction::Boolean(Boolean::Not));
    v.push(Instruction::Boolean(Boolean::Or));
    v.push(Instruction::Boolean(Boolean::Pop));
    v.push(Instruction::Boolean(Boolean::Rand));
    v.push(Instruction::Boolean(Boolean::Rot));
    v.push(Instruction::Boolean(Boolean::Shove));
    v.push(Instruction::Boolean(Boolean::StackDepth));
    v.push(Instruction::Boolean(Boolean::Swap));
    v.push(Instruction::Boolean(Boolean::Yank));
    v.push(Instruction::Boolean(Boolean::YankDup));
    proof {
        assert(v@ =~= old(v)@ + boolean_tags());
    }
}

/// The code-domain tags, in declaration order.
pub open spec fn code_tags() -> Seq<Instruction> {
    seq![
        Instruction::Code(Code::Eq),
        Instruction::Code(Code::Append),
        Instruction::Code(Code::Atom),
        Instruction::Code(Code::Car),
        Instruction::Code(Code::Cdr),
        Instruction::Code(Code::Cons),
        Instruction::Code(Code::Container),
        Instruction::Code(Code::Contains),
        Instruction::Code(Code::Define),
        Instruction::Code(Code::Definition),
        Instruction::Code(Code::Discrepancy),
        Instruction::Code(Code::Do),
        Instruction::Code(Code::DoStar),
        Instruction::Code(Code::DoStarCount),
        Instruction::Code(Code::DoStarRange),
        Instruction::Code(Code::DoStarTimes),
        Instruction::Code(Code::Dup),
        Instruction::Code(Code::Extract),
        Instruction::Code(Code::Flush),
        Instruction::Code(Code::FromBoolean),
        Instruction::Code(Code::FromFloat),
        Instruction::Code(Code::FromInteger),
        Instruction::Code(Code::FromName),
        Instruction::Code(Code::If),
        Instruction::Code(Code::Insert),
        Instruction::Code(Code::Instructions),
        Instruction::Code(Code::Length),
        Instruction::Code(Code::List),
        Instruction::Code(Code::Member),
        Instruction::Code(Code::Noop),
        Instruction::Code(Code::Nth),
        Instruction::Code(Code::NthCdr),
        Instruction::Code(Code::Null),
        Instruction::Code(Code::Pop),
        Instruction::Code(Code::Position),
        Instruction::Code(Code::Quote),
        Instruction::Code(Code::Rand),
        Instruction::Code(Code::Rot),
        Instruction::Code(Code::Shove),
        Instruction::Code(Code::Size),
        Instruction::Code(Code::StackDepth),
        Instruction::Code(Code::Subst),
        Instruction::Code(Code::Swap),
        Instruction::Code(Code::Yank),
        Instruction::Code(Code::YankDup),
    ]
}

fn push_code_tags(v: &mut Vec<Instruction>)
    ensures
        final(v)@ == old(v)@ + code_tags(),
{
    v.push(Instruction::Code(Code::Eq));
    v.push(Instruction::Code(Code::Append));
    v.push(Instruction::Code(Code::Atom));
    v.push(Instruction::Code(Code::Car));
    v.push(Instruction::Code(Code::Cdr));
    v.push(Instruction::Code(Code::Cons));
    v.push(Instruction::Code(Code::Container));
    v.push(Instruction::Code(Code::Contains));
    v.push(Instruction::Code(Code::Define));
    v.push(Instruction::Code(Code::Definition));
    v.push(Instruction::Code(Code::Discrepancy));
    v.push(Instruction::Code(Code::Do));
    v.push(Instruction::Code(Code::DoStar));
    v.push(Instruction::Code(Code::DoStarCount));
    v.push(Instruction::Code(Code::DoStarRange));
    v.push(Instruction::Code(Code::DoStarTimes));
    v.push(Instruction::Code(Code::Dup));
    v.push(Instruction::Code(Code::Extract));
    v.push(Instruction::Code(Code::Flush));
    v.push(Instruction::Code(Code::FromBoolean));
    v.push(Instruction::Code(Code::FromFloat));
    v.push(Instruction::Code(Code::FromInteger));
    v.push(Instruction::Code(Code::FromName));
    v.push(Instruction::Code(Code::If));
    v.push(Instruction::Code(Code::Insert));
    v.push(Instruction::Code(Code::Instructions));
    v.push(Instruction::Code(Code::Length));
    v.push(Instruction::Code(Code::List));
    v.push(Instruction::Code(Code::Member));
    v.push(Instruction::Code(Code::Noop));
    v.push(Instruction::Code(Code::Nth));
    v.push(Instruction::Code(Code::NthCdr));
    v.push(Instruction::Code(Code::Null));
    v.push(Instruction::Code(Code::Pop));
    v.push(Instruction::Code(Code::Position));
    v.push(Instruction::Code(Code::Quote));
    v.push(Instruction::Code(Code::Rand));
    v.push(Instruction::Code(Code::Rot));
    v.push(Instruction::Code(Code::Shove));
    v.push(Instruction::Code(Code::Size));
    v.push(Instruction::Code(Code::StackDepth));
    v.push(Instruction::Code(Code::Subst));
    v.push(Instruction::Code(Code::Swap));
    v.push(Instruction::Code(Code::Yank));
    v.push(Instruction::Code(Code::YankDup));
    proof {
        assert(v@ =~= old(v)@ + code_tags());
    }
}

/// The exec-domain tags, in declaration order.
pub open spec fn exec_tags() -> Seq<Instruction> {
    seq![
        Instruction::Exec(Exec::Eq),
        Instruction::Exec(Exec::Define),
        Instruction::Exec(Exec::DoStarCount),
        Instruction::Exec(Exec::DoStarRange),
        Instruction::Exec(Exec::DoStarTimes),
        Instruction::Exec(Exec::Dup),
        Instruction::Exec(Exec::Flush),
        Instruction::Exec(Exec::If),
        Instruction::Exec(Exec::K),
        Instruction::Exec(Exec::Pop),
        Instruction::Exec(Exec::Rot),
        Instruction::Exec(Exec::S),
        Instruction::Exec(Exec::Shove),
        Instruction::Exec(Exec::StackDepth),
        Instruction::Exec(Exec::Swap),
        Instruction::Exec(Exec::Y),
        Instruction::Exec(Exec::Yank),
        Instruction::Exec(Exec::YankDup),
    ]
}

fn push_exec_tags(v: &mut Vec<Instruction>)
    ensures
        final(v)@ == old(v)@ + exec_tags(),
{
    v.push(Instruction::Exec(Exec::Eq));
    v.push(Instruction::Exec(Exec::Define));
    v.push(Instruction::Exec(Exec::DoStarCount));
    v.push(Instruction::Exec(Exec::DoStarRange));
    v.push(Instruction::Exec(Exec::DoStarTimes));
    v.push(Instruction::Exec(Exec::Dup));
    v.push(Instruction::Exec(Exec::Flush));
    v.push(Instruction::Exec(Exec::If));
    v.push(Instruction::Exec(Exec::K));
    v.push(Instruction::Exec(Exec::Pop));
    v.push(Instruction::Exec(Exec::Rot));
    v.push(Instruction::Exec(Exec::S));
    v.push(Instruction::Exec(Exec::Shove));
    v.push(Instruction::Exec(Exec::StackDepth));
    v.push(Instruction::Exec(Exec::Swap));
    v.push(Instruction::Exec(Exec::Y));
    v.push(Instruction::Exec(Exec::Yank));
    v.push(Instruction::Exec(Exec::YankDup));
    proof {
        assert(v@ =~= old(v)@ + exec_tags());
    }
}

/// The float-domain tags, in declaration order.
pub open spec fn float_tags() -> Seq<Instruction> {
    seq![
        Instruction::Float(Float::Mod),
        Instruction::Float(Float::Times),
        Instruction::Float(Float::Plus),
        Instruction::Float(Float::Minus),
        Instruction::Float(Float::Divide),
        Instruction::Float(Float::LessThan),
        Instruction::Float(Float::Eq),
        Instruction::Float(Float::GreaterThan),
        Instruction::Float(Float::Cosine),
        Instruction::Float(Float::Define),
        Instruction::Float(Float::Dup),
        Instruction::Float(Float::Flush),
        Instruction::Float(Float::FromBoolean),
        Instruction::Float(Float::FromInteger),
        Instruction::Float(Float::Max),
        Instruction::Float(Float::Min),
        Instruction::Float(Float::Pop),
        Instruction::Float(Float::Rand),
        Instruction::Float(Float::Rot),
        Instruction::Float(Float::Shove),
        Instruction::Float(Float::Sine),
        Instruction::Float(Float::Swap),
        Instruction::Float(Float::Tangent),
        Instruction::Float(Float::Yank),
        Instruction::Float(Float::YankDup),
    ]
}

fn push_float_tags(v: &mut Vec<Instruction>)
    ensures
        final(v)@ == old(v)@ + float_tags(),
{
    v.push(Instruction::Float(Float::Mod));
    v.push(Instruction::Float(Float::Times));
    v.push(Instruction::Float(Float::Plus));
    v.push(Instruction::Float(Float::Minus));
    v.push(Instruction::Float(Float::Divide));
    v.push(Instruction::Float(Float::LessThan));
    v.push(Instruction::Float(Float::Eq));
    v.push(Instruction::Float(Float::GreaterThan));
    v.push(Instruction::Float(Float::Cosine));
    v.push(Instruction::Float(Float::Define));
    v.push(Instruction::Float(Float::Dup));
    v.push(Instruction::Float(Float::Flush));
    v.push(Instruction::Float(Float::FromBoolean));
    v.push(Instruction::Float(Float::FromInteger));
    v.push(Instruction::Float(Float::Max));
    v.push(Instruction::Float(Float::Min));
    v.push(Instruction::Float(Float::Pop));
    v.push(Instruction::Float(Float::Rand));
    v.push(Instruction::Float(Float::Rot));
    v.push(Instruction::Float(Float::Shove));
    v.push(Instruction::Float(Float::Sine));
    v.push(Instruction::Float(Float::Swap));
    v.push(Instruction::Float(Float::Tangent));
    v.push(Instruction::Float(Float::Yank));
    v.push(Instruction::Float(Float::YankDup));
    proof {
        assert(v@ =~= old(v)@ + float_tags());
    }
}

/// The integer-domain tags, in declaration order.
pub open spec fn integer_tags() -> Seq<Instruction> {
    seq![
        Instruction::Integer(Integer::Mod),
        Instruction::Integer(Integer::Times),
        Instruction::Integer(Integer::Plus),
        Instruction::Integer(Integer::Minus),
        Instruction::Integer(Integer::Divide),
        Instruction::Integer(Integer::LessThan),
        Instruction::Integer(Integer::Eq),
        Instruction::Integer(Integer::GreaterThan),
        Instruction::Integer(Integer::Define),
        Instruction::Integer(Integer::Dup),
        Instruction::Integer(Integer::Flush),
        Instruction::Integer(Integer::FromBoolean),
        Instruction::Integer(Integer::FromFloat),
        Instruction::Integer(Integer::Max),
        Instruction::Integer(Integer::Min),
        Instruction::Integer(Integer::Pop),
        Instruction::Integer(Integer::Rand),
        Instruction::Integer(Integer::Rot),
        Instruction::Integer(Integer::Shove),
        Instruction::Integer(Integer::StackDepth),
        Instruction::Integer(Integer::Swap),
        Instruction::Integer(Integer::Yank),
        Instruction::Integer(Integer::YankDup),
    ]
}

fn push_integer_tags(v: &mut Vec<Instruction>)
    ensures
        final(v)@ == old(v)@ + integer_tags(),
{
    v.push(Instruction::Integer(Integer::Mod));
    v.push(Instruction::Integer(Integer::Times));
    v.push(Instruction::Integer(Integer::Plus));
    v.push(Instruction::Integer(Integer::Minus));
    v.push(Instruction::Integer(Integer::Divide));
    v.push(Instruction::Integer(Integer::LessThan));
    v.push(Instruction::Integer(Integer::Eq));
    v.push(Instruction::Integer(Integer::GreaterThan));
    v.push(Instruction::Integer(Integer::Define));
    v.push(Instruction::Integer(Integer::Dup));
    v.push(Instruction::Integer(Integer::Flush));
    v.push(Instruction::Integer(Integer::FromBoolean));
    v.push(Instruction::Integer(Integer::FromFloat));
    v.push(Instruction::Integer(Integer::Max));
    v.push(Instruction::Integer(Integer::Min));
    v.push(Instruction::Integer(Integer::Pop));
    v.push(Instruction::Integer(Integer::Rand));
    v.push(Instruction::Integer(Integer::Rot));
    v.push(Instruction::Integer(Integer::Shove));
    v.push(Instruction::Integer(Integer::StackDepth));
    v.push(Instruction::Integer(Integer::Swap));
    v.push(Instruction::Integer(Integer::Yank));
    v.push(Instruction::Integer(Integer::YankDup));
    proof {
        assert(v@ =~= old(v)@ + integer_tags());
    }
}

/// The name-domain tags, in declaration order.
pub open spec fn name_tags() -> Seq<Instruction> {
    seq![
        Instruction::Name(Name::Eq),
        Instruction::Name(Name::Dup),
        Instruction::Name(Name::Flush),
        Instruction::Name(Name::Pop),
        Instruction::Name(Name::Quote),
        Instruction::Name(Name::Rand),
        Instruction::Name(Name::RandBoundName),
        Instruction::Name(Name::Rot),
        Instruction::Name(Name::Shove),
        Instruction::Name(Name::StackDepth),
        Instruction::Name(Name::Swap),
        Instruction::Name(Name::Yank),
        Instruction::Name(Name::YankDup),
    ]
}

fn push_name_tags(v: &mut Vec<Instruction>)
    ensures
        final(v)@ == old(v)@ + name_tags(),
{
    v.push(Instruction::Name(Name::Eq));
    v.push(Instruction::Name(Name::Dup));
    v.push(Instruction::Name(Name::Flush));
    v.push(Instruction::Name(Name::Pop));
    v.push(Instruction::Name(Name::Quote));
    v.push(Instruction::Name(Name::Rand));
    v.push(Instruction::Name(Name::RandBoundName));
    v.push(Instruction::Name(Name::Rot));
    v.push(Instruction::Name(Name::Shove));
    v.push(Instruction::Name(Name::StackDepth));
    v.push(Instruction::Name(Name::Swap));
    v.push(Instruction::Name(Name::Yank));
    v.push(Instruction::Name(Name::YankDup));
    proof {
        assert(v@ =~= old(v)@ + name_tags());
    }
}

/// Every instruction tag, in the canonical order.
pub fn instruction_catalog() -> (v: Vec<Instruction>)
    ensures
        v@ == catalog_spec(),
        v@.len() == CATALOG_LEN,
{
    let mut v: Vec<Instruction> = Vec::new();
    push_boolean_tags(&mut v);
    push_code_tags(&mut v);
    push_exec_tags(&mut v);
    push_float_tags(&mut v);
    push_integer_tags(&mut v);
    push_name_tags(&mut v);
    proof {
        assert(v@ =~= catalog_spec());
    }
    v
}

} // verus!
