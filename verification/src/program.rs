//! The arena store: a `Program` owns all functions, nominal types and string
//! literals behind stable opaque keys, plus the two name tables used for
//! name resolution.  Name tables are injective: declaring a duplicate name
//! is rejected and leaves the store unchanged.

use vstd::prelude::*;

use crate::ir::DirectType;
use crate::ir::DirectTypeView;
use crate::ir::FuncKey;
use crate::ir::Function;
use crate::ir::FunctionDecl;
use crate::ir::FunctionDeclView;
use crate::ir::FunctionView;
use crate::ir::LiteralKey;
use crate::ir::LoweringError;
use crate::ir::Span;
use crate::ir::TypeKey;
use crate::ir::decl_view;
use crate::ir::direct_type_view;
use crate::ir::function_view;

verus! {

/// The arena store.  Function and declaration arenas are parallel: the
/// function key `k` owns `functions[k]` and `function_decls[k]`.
#[derive(Debug)]
pub struct Program {
    pub functions: Vec<Function>,
    pub function_decls: Vec<FunctionDecl>,
    pub function_names: Vec<(String, FuncKey)>,
    pub types: Vec<DirectType>,
    pub type_names: Vec<(String, TypeKey)>,
    pub literals: Vec<String>,
}

#[verifier::ext_equal]
pub ghost struct ProgramView {
    pub functions: Seq<FunctionView>,
    pub function_decls: Seq<FunctionDeclView>,
    pub function_names: Seq<(Seq<char>, FuncKey)>,
    pub types: Seq<DirectTypeView>,
    pub type_names: Seq<(Seq<char>, TypeKey)>,
    pub literals: Seq<Seq<char>>,
}

pub open spec fn names_view<K>(s: Seq<(String, K)>) -> Seq<(Seq<char>, K)> {
    Seq::new(s.len(), |i: int| (s[i].0@, s[i].1))
}

pub open spec fn literals_view(s: Seq<String>) -> Seq<Seq<char>> {
    Seq::new(s.len(), |i: int| s[i]@)
}

pub open spec fn direct_types_view(s: Seq<DirectType>) -> Seq<DirectTypeView> {
    Seq::new(s.len(), |i: int| direct_type_view(s[i]))
}

pub open spec fn decls_view(s: Seq<FunctionDecl>) -> Seq<FunctionDeclView> {
    Seq::new(s.len(), |i: int| decl_view(s[i]))
}

pub open spec fn funcs_view(s: Seq<Function>) -> Seq<FunctionView> {
    Seq::new(s.len(), |i: int| function_view(s[i]))
}

impl View for Program {
    type V = ProgramView;

    open spec fn view(&self) -> ProgramView {
        ProgramView {
            functions: funcs_view(self.functions@),
            function_decls: decls_view(self.function_decls@),
            function_names: names_view(self.function_names@),
            types: direct_types_view(self.types@),
            type_names: names_view(self.type_names@),
            literals: literals_view(self.literals@),
        }
    }
}

/// First-match lookup in a name table.
pub open spec fn spec_lookup<K>(t: Seq<(Seq<char>, K)>, name: Seq<char>) -> Option<K>
    decreases t,
{
    if t.len() == 0 {
        None
    } else if t[0].0 == name {
        Some(t[0].1)
    } else {
        spec_lookup(t.subrange(1, t.len() as int), name)
    }
}

pub proof fn lemma_lookup_skip<K>(t: Seq<(Seq<char>, K)>, name: Seq<char>, i: int)
    requires
        0 <= i <= t.len(),
        forall|j: int| 0 <= j < i ==> t[j].0 != name,
    ensures
        spec_lookup(t, name) == spec_lookup(t.subrange(i, t.len() as int), name),
    decreases i,
{
    if i > 0 {
        lemma_lookup_skip(t, name, i - 1);
        let s = t.subrange(i - 1, t.len() as int);
        assert(s[0] == t[i - 1]);
        assert(s.subrange(1, s.len() as int) =~= t.subrange(i, t.len() as int));
    } else {
        assert(t.subrange(0, t.len() as int) =~= t);
    }
}

/// A successful lookup returns the value of some entry carrying the name.
pub proof fn lemma_lookup_found<K>(t: Seq<(Seq<char>, K)>, name: Seq<char>)
    requires
        spec_lookup(t, name) is Some,
    ensures
        exists|i: int|
            0 <= i < t.len() && t[i].0 == name && spec_lookup(t, name) == Some(t[i].1),
    decreases t.len(),
{
    if t.len() > 0 {
        if t[0].0 == name {
            assert(0 <= 0 < t.len() && t[0].0 == name && spec_lookup(t, name) == Some(t[0].1));
        } else {
            let tail = t.subrange(1, t.len() as int);
            lemma_lookup_found(tail, name);
            let j = choose|j: int|
                0 <= j < tail.len() && tail[j].0 == name && spec_lookup(tail, name) == Some(
                    tail[j].1,
                );
            assert(tail[j] == t[j + 1]);
            assert(0 <= j + 1 < t.len() && t[j + 1].0 == name && spec_lookup(t, name) == Some(
                t[j + 1].1,
            ));
        }
    }
}

/// Extending a table with a fresh name makes that name found, at the new
/// entry.
pub proof fn lemma_lookup_push<K>(t: Seq<(Seq<char>, K)>, e: (Seq<char>, K), name: Seq<char>)
    requires
        spec_lookup(t, name) is None,
        e.0 == name,
    ensures
        spec_lookup(t.push(e), name) == Some(e.1),
    decreases t.len(),
{
    if t.len() == 0 {
        assert(t.push(e)[0] == e);
    } else {
        lemma_lookup_push(t.subrange(1, t.len() as int), e, name);
        assert(t.push(e)[0] == t[0]);
        assert(t.push(e).subrange(1, t.len() as int + 1) =~= t.subrange(1, t.len() as int).push(
            e,
        ));
    }
}

/// First-match lookup in a `(name, key)` table.
#[verifier::loop_isolation(false)]
pub fn lookup_name<K: Copy>(table: &Vec<(String, K)>, name: &String) -> (r: Option<K>)
    ensures
        r == spec_lookup(names_view(table@), name@),
{
    let ghost t = names_view(table@);
    let mut i: usize = 0;
    while i < table.len()
        invariant
            i <= table@.len(),
            forall|j: int| 0 <= j < i ==> t[j].0 != name@,
        decreases table@.len() - i,
    {
        let entry = &table[i];
        if entry.0 == *name {
            proof {
                lemma_lookup_skip(t, name@, i as int);
                assert(t.subrange(i as int, t.len() as int)[0] == t[i as int]);
            }
            return Some(entry.1);
        }
        i += 1;
    }
    proof {
        lemma_lookup_skip(t, name@, t.len() as int);
        assert(t.subrange(t.len() as int, t.len() as int) =~= Seq::<(Seq<char>, K)>::empty());
    }
    None
}

/// What `declare_type` does: on a fresh name the definition is appended
/// under the next key and the name is recorded; on a duplicate name the
/// store is unchanged and a `DuplicateType` error carries the span.
pub open spec fn declares_type(
    pre: ProgramView,
    name: Seq<char>,
    dt: DirectTypeView,
    span: Span,
    post: ProgramView,
    r: Result<TypeKey, LoweringError>,
) -> bool {
    if spec_lookup(pre.type_names, name) is Some {
        &&& r == Err::<TypeKey, LoweringError>(LoweringError::DuplicateType(span))
        &&& post == pre
    } else {
        let k = TypeKey { idx: pre.types.len() as usize };
        &&& r == Ok::<TypeKey, LoweringError>(k)
        &&& post == ProgramView { types: pre.types.push(dt), type_names: pre.type_names.push((name, k)), ..pre }
    }
}

/// What `declare_function` does: on a fresh name the declaration is
/// appended under the next key together with an empty body, and the name is
/// recorded; on a duplicate name the store is unchanged and a
/// `DuplicateFunction` error carries the span.
pub open spec fn declares_function(
    pre: ProgramView,
    name: Seq<char>,
    decl: FunctionDeclView,
    span: Span,
    post: ProgramView,
    r: Result<FuncKey, LoweringError>,
) -> bool {
    if spec_lookup(pre.function_names, name) is Some {
        &&& r == Err::<FuncKey, LoweringError>(LoweringError::DuplicateFunction(span))
        &&& post == pre
    } else {
        let k = FuncKey { idx: pre.functions.len() as usize };
        &&& r == Ok::<FuncKey, LoweringError>(k)
        &&& post == ProgramView {
            functions: pre.functions.push(
                FunctionView { variables: Seq::empty(), body: Seq::empty() },
            ),
            function_decls: pre.function_decls.push(decl),
            function_names: pre.function_names.push((name, k)),
            ..pre
        }
    }
}

impl Program {
    pub fn new() -> (r: Program)
        ensures
            r@ == (ProgramView {
                functions: Seq::empty(),
                function_decls: Seq::empty(),
                function_names: Seq::empty(),
                types: Seq::empty(),
                type_names: Seq::empty(),
                literals: Seq::empty(),
            }),
    {
        let p = Program {
            functions: Vec::new(),
            function_decls: Vec::new(),
            function_names: Vec::new(),
            types: Vec::new(),
            type_names: Vec::new(),
            literals: Vec::new(),
        };
        proof {
            assert(p@ =~= ProgramView {
                functions: Seq::empty(),
                function_decls: Seq::empty(),
                function_names: Seq::empty(),
                types: Seq::empty(),
                type_names: Seq::empty(),
                literals: Seq::empty(),
            });
        }
        p
    }

    /// Register a nominal type under `name`; fails on a duplicate name with
    /// the store left unchanged.
    pub fn declare_type(&mut self, name: String, dt: DirectType, span: Span) -> (r: Result<
        TypeKey,
        LoweringError,
    >)
        ensures
            declares_type(old(self)@, name@, dt@, span, final(self)@, r),
    {
        let ghost namev = name@;
        let ghost dtv = dt@;
        if lookup_name(&self.type_names, &name).is_some() {
            return Err(LoweringError::DuplicateType(span));
        }
        let k = TypeKey { idx: self.types.len() };
        self.types.push(dt);
        self.type_names.push((name, k));
        proof {
            assert(direct_types_view(self.types@) =~= old(self)@.types.push(dtv));
            assert(names_view(self.type_names@) =~= old(self)@.type_names.push((namev, k)));
            assert(self@ =~= ProgramView {
                types: old(self)@.types.push(dtv),
                type_names: old(self)@.type_names.push((namev, k)),
                ..old(self)@
            });
        }
        Ok(k)
    }

    /// Register a function signature under `name`, with an empty body to be
    /// filled in later; fails on a duplicate name with the store left
    /// unchanged.
    pub fn declare_function(&mut self, name: String, decl: FunctionDecl, span: Span) -> (r: Result<
        FuncKey,
        LoweringError,
    >)
        ensures
            declares_function(old(self)@, name@, decl@, span, final(self)@, r),
    {
        let ghost namev = name@;
        let ghost declv = decl@;
        if lookup_name(&self.function_names, &name).is_some() {
            return Err(LoweringError::DuplicateFunction(span));
        }
        let k = FuncKey { idx: self.functions.len() };
        self.functions.push(Function { variables: Vec::new(), body: crate::ir::Block { stmts: Vec::new() } });
        self.function_decls.push(decl);
        self.function_names.push((name, k));
        proof {
            assert(funcs_view(self.functions@) =~~= old(self)@.functions.push(
                FunctionView { variables: Seq::empty(), body: Seq::empty() },
            ));
            assert(decls_view(self.function_decls@) =~= old(self)@.function_decls.push(declv));
            assert(names_view(self.function_names@) =~= old(self)@.function_names.push(
                (namev, k),
            ));
            assert(self@ =~= ProgramView {
                functions: old(self)@.functions.push(
                    FunctionView { variables: Seq::empty(), body: Seq::empty() },
                ),
                function_decls: old(self)@.function_decls.push(declv),
                function_names: old(self)@.function_names.push((namev, k)),
                ..old(self)@
            });
        }
        Ok(k)
    }

    /// Intern a string literal.  Literals are not deduplicated: each
    /// occurrence gets a fresh key.
    pub fn intern_literal(&mut self, text: String) -> (k: LiteralKey)
        ensures
            k == (LiteralKey { idx: old(self)@.literals.len() as usize }),
            final(self)@ == (ProgramView { literals: old(self)@.literals.push(text@), ..old(self)@ }),
    {
        let ghost textv = text@;
        let k = LiteralKey { idx: self.literals.len() };
        self.literals.push(text);
        proof {
            assert(literals_view(self.literals@) =~= old(self)@.literals.push(textv));
            assert(self@ =~= ProgramView { literals: old(self)@.literals.push(textv), ..old(self)@ });
        }
        k
    }

    /// Replace the stored definition of an already-declared nominal type;
    /// with a key outside the arena the store is unchanged.
    pub fn set_type(&mut self, k: TypeKey, dt: DirectType)
        ensures
            final(self)@ == if k.idx < old(self)@.types.len() {
                ProgramView { types: old(self)@.types.update(k.idx as int, dt@), ..old(self)@ }
            } else {
                old(self)@
            },
    {
        let ghost dtv = dt@;
        if k.idx < self.types.len() {
            let slot = &mut self.types[k.idx];
            *slot = dt;
            proof {
                assert(direct_types_view(self.types@) =~= old(self)@.types.update(
                    k.idx as int,
                    dtv,
                ));
                assert(self@ =~= ProgramView {
                    types: old(self)@.types.update(k.idx as int, dtv),
                    ..old(self)@
                });
            }
        }
    }

    /// Replace the stored declaration of an already-declared function; with
    /// a key outside the arena the store is unchanged.
    pub fn set_decl(&mut self, k: FuncKey, decl: FunctionDecl)
        ensures
            final(self)@ == if k.idx < old(self)@.function_decls.len() {
                ProgramView {
                    function_decls: old(self)@.function_decls.update(k.idx as int, decl@),
                    ..old(self)@
                }
            } else {
                old(self)@
            },
    {
        let ghost dv = decl@;
        if k.idx < self.function_decls.len() {
            let slot = &mut self.function_decls[k.idx];
            *slot = decl;
            proof {
                assert(decls_view(self.function_decls@) =~= old(self)@.function_decls.update(
                    k.idx as int,
                    dv,
                ));
                assert(self@ =~= ProgramView {
                    function_decls: old(self)@.function_decls.update(k.idx as int, dv),
                    ..old(self)@
                });
            }
        }
    }

    /// Attach the lowered body and variable arena of a declared function;
    /// with a key outside the arena the store is unchanged.
    pub fn set_function(&mut self, k: FuncKey, f: Function)
        ensures
            final(self)@ == if k.idx < old(self)@.functions.len() {
                ProgramView {
                    functions: old(self)@.functions.update(k.idx as int, f@),
                    ..old(self)@
                }
            } else {
                old(self)@
            },
    {
        let ghost fv = f@;
        if k.idx < self.functions.len() {
            let slot = &mut self.functions[k.idx];
            *slot = f;
            proof {
                assert(funcs_view(self.functions@) =~= old(self)@.functions.update(
                    k.idx as int,
                    fv,
                ));
                assert(self@ =~= ProgramView {
                    functions: old(self)@.functions.update(k.idx as int, fv),
                    ..old(self)@
                });
            }
        }
    }
}

/// Name uniqueness for types: after a type is declared under a fresh name,
/// declaring any second type under the same name yields exactly the one
/// `DuplicateType` error at the second span, and the store — in particular
/// the first declaration's entry — is retained unchanged.
pub proof fn lemma_type_name_uniqueness(
    p0: ProgramView,
    name: Seq<char>,
    d1: DirectTypeView,
    d2: DirectTypeView,
    s1: Span,
    s2: Span,
    p1: ProgramView,
    p2: ProgramView,
    r1: Result<TypeKey, LoweringError>,
    r2: Result<TypeKey, LoweringError>,
)
    requires
        spec_lookup(p0.type_names, name) is None,
        declares_type(p0, name, d1, s1, p1, r1),
        declares_type(p1, name, d2, s2, p2, r2),
    ensures
        r1 == Ok::<TypeKey, LoweringError>(TypeKey { idx: p0.types.len() as usize }),
        r2 == Err::<TypeKey, LoweringError>(LoweringError::DuplicateType(s2)),
        p2 == p1,
        p1.types[p1.types.len() - 1] == d1,
{
    let k = TypeKey { idx: p0.types.len() as usize };
    lemma_lookup_push(p0.type_names, (name, k), name);
    assert(spec_lookup(p1.type_names, name) is Some);
}

/// Name uniqueness for functions: after a function is declared under a
/// fresh name, declaring any second function under the same name yields
/// exactly the one `DuplicateFunction` error at the second span, and the
/// store — in particular the first declaration's entry — is retained
/// unchanged.
pub proof fn lemma_function_name_uniqueness(
    p0: ProgramView,
    name: Seq<char>,
    d1: FunctionDeclView,
    d2: FunctionDeclView,
    s1: Span,
    s2: Span,
    p1: ProgramView,
    p2: ProgramView,
    r1: Result<FuncKey, LoweringError>,
    r2: Result<FuncKey, LoweringError>,
)
    requires
        spec_lookup(p0.function_names, name) is None,
        declares_function(p0, name, d1, s1, p1, r1),
        declares_function(p1, name, d2, s2, p2, r2),
    ensures
        r1 == Ok::<FuncKey, LoweringError>(FuncKey { idx: p0.functions.len() as usize }),
        r2 == Err::<FuncKey, LoweringError>(LoweringError::DuplicateFunction(s2)),
        p2 == p1,
        p1.function_decls[p1.function_decls.len() - 1] == d1,
{
    let k = FuncKey { idx: p0.functions.len() as usize };
    lemma_lookup_push(p0.function_names, (name, k), name);
    assert(spec_lookup(p1.function_names, name) is Some);
}

} // verus!
