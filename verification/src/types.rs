//! Interned types, and the variables that a scope holds.

use vstd::prelude::*;
use crate::interning::{index_after, pool_after, lemma_intern_sound, lemma_position_unique, position};
use crate::paths::PathIdx;
use crate::source::Source;
use crate::strings::StringIdx;

verus! {

/// A type of the language. `Integer` and `Float` are the types of literals
/// whose size is not fixed yet.
#[derive(Debug, Copy, Clone, PartialEq, Eq, Hash, Structural)]
pub enum Type {
    Unknown,
    Integer,
    U8,
    U16,
    U32,
    U64,
    Usize,
    S8,
    S16,
    S32,
    S64,
    Float,
    F32,
    F64,
    Unit,
    Boolean,
    Pointer(bool, TypeIdx),
    Struct(PathIdx),
}

/// Index of an interned type.
#[derive(Debug, Copy, Clone, PartialEq, Eq, Hash, Structural)]
pub struct TypeIdx(pub usize);

/// Append-only pool of types. Equal types always get the same index.
#[derive(Debug, Clone)]
pub struct TypeMap {
    types: Vec<Type>,
}

/// The type stored at `idx`, or `Unknown` when the pool is too short.
pub open spec fn type_at(pool: Seq<Type>, idx: TypeIdx) -> Type {
    if idx.0 < pool.len() {
        pool[idx.0 as int]
    } else {
        Type::Unknown
    }
}

impl View for TypeMap {
    type V = Seq<Type>;

    closed spec fn view(&self) -> Seq<Type> {
        self.types@
    }
}

impl TypeMap {
    /// No type is stored twice.
    pub open spec fn wf(&self) -> bool {
        self@.no_duplicates()
    }

    /// A pool that holds no type.
    pub fn new() -> (r: TypeMap)
        ensures
            r.wf(),
            r@ == Seq::<Type>::empty(),
    {
        TypeMap { types: Vec::new() }
    }

    /// Number of types interned so far.
    pub fn len(&self) -> (n: usize)
        ensures
            n == self@.len(),
    {
        self.types.len()
    }

    /// Interns `t`: yields the index it already has, or appends it.
    pub fn insert(&mut self, t: Type) -> (idx: TypeIdx)
        requires
            old(self).wf(),
        ensures
            final(self).wf(),
            final(self)@ == pool_after(old(self)@, t),
            idx.0 == index_after(old(self)@, t),
            idx.0 < final(self)@.len(),
            final(self)@[idx.0 as int] == t,
            old(self)@.is_prefix_of(final(self)@),
    {
        proof {
            lemma_intern_sound(self@, t);
        }
        let mut i: usize = 0;
        while i < self.types.len()
            invariant
                self.wf(),
                i <= self.types.len(),
                forall|k: int| 0 <= k < i ==> self@[k] != t,
            decreases self.types.len() - i,
        {
            if self.types[i] == t {
                proof {
                    lemma_position_unique(self@, t, i as int);
                }
                return TypeIdx(i);
            }
            i = i + 1;
        }
        let idx = TypeIdx(self.types.len());
        self.types.push(t);
        idx
    }

    /// The type interned at `idx`.
    pub fn get(&self, idx: TypeIdx) -> (t: &Type)
        requires
            idx.0 < self@.len(),
        ensures
            *t == self@[idx.0 as int],
    {
        &self.types[idx.0]
    }

    /// The type interned at `idx`, or `Unknown` when `idx` was not handed
    /// out by this pool.
    pub fn lookup(&self, idx: TypeIdx) -> (t: Type)
        ensures
            t == type_at(self@, idx),
    {
        if idx.0 < self.types.len() {
            self.types[idx.0]
        } else {
            Type::Unknown
        }
    }
}

/// Whether a variable holds a value yet.
#[derive(Debug, Copy, Clone, PartialEq, Eq, Hash, Structural)]
pub enum VariableState {
    Uninitialized,
    Initialized,
}

impl VariableState {
    /// Whether a variable in this state may be read.
    pub fn is_accessible(&self) -> (r: bool)
        ensures
            r == (*self == VariableState::Initialized),
    {
        match self {
            VariableState::Uninitialized => false,
            VariableState::Initialized => true,
        }
    }
}

/// A variable: where it was declared, its state and the type of its value.
#[derive(Debug, Clone, Copy)]
pub struct Variable {
    pub source: Source,
    pub state: VariableState,
    pub value_type: TypeIdx,
}

impl Variable {
    /// A variable declared at `source`.
    pub fn new(source: Source, state: VariableState, value_type: TypeIdx) -> (r: Variable)
        ensures
            r == (Variable { source, state, value_type }),
    {
        Variable { source, state, value_type }
    }
}

/// For each name, the variables declared under it, the latest last.
#[derive(Debug, Clone)]
pub struct Scope {
    names: Vec<StringIdx>,
    stacks: Vec<Vec<Variable>>,
}

impl View for Scope {
    type V = Map<StringIdx, Seq<Variable>>;

    closed spec fn view(&self) -> Map<StringIdx, Seq<Variable>> {
        Map::new(
            |name: StringIdx| self.names@.contains(name),
            |name: StringIdx| self.stacks[position(self.names@, name)]@,
        )
    }
}

impl Scope {
    /// Every name is listed once and has at least one variable.
    pub closed spec fn wf(&self) -> bool {
        &&& self.names@.no_duplicates()
        &&& self.names.len() == self.stacks.len()
        &&& forall|i: int| 0 <= i < self.stacks.len() ==> (#[trigger] self.stacks[i]).len() > 0
    }

    /// A scope without variables.
    pub fn new() -> (r: Scope)
        ensures
            r.wf(),
            r@ == Map::<StringIdx, Seq<Variable>>::empty(),
    {
        let r = Scope { names: Vec::new(), stacks: Vec::new() };
        assert(r@ =~= Map::<StringIdx, Seq<Variable>>::empty());
        r
    }

    fn slot(&self, name: StringIdx) -> (r: Option<usize>)
        requires
            self.wf(),
        ensures
            r is Some <==> self@.contains_key(name),
            r matches Some(i) ==> i < self.stacks.len() && self.names[i as int] == name
                && self@[name] == self.stacks[i as int]@,
    {
        let mut i: usize = 0;
        while i < self.names.len()
            invariant
                self.wf(),
                i <= self.names.len(),
                forall|k: int| 0 <= k < i ==> self.names@[k] != name,
            decreases self.names.len() - i,
        {
            if self.names[i] == name {
                proof {
                    lemma_position_unique(self.names@, name, i as int);
                }
                return Some(i);
            }
            i = i + 1;
        }
        None
    }

    /// Declares a variable under `name`, on top of those it already has.
    pub fn insert(
        &mut self,
        name: StringIdx,
        source: Source,
        state: VariableState,
        value_type: TypeIdx,
    )
        requires
            old(self).wf(),
        ensures
            final(self).wf(),
            final(self)@ == old(self)@.insert(
                name,
                (if old(self)@.contains_key(name) {
                    old(self)@[name]
                } else {
                    Seq::empty()
                }).push(Variable { source, state, value_type }),
            ),
    {
        let variable = Variable::new(source, state, value_type);
        match self.slot(name) {
            Some(i) => {
                let mut stack: Vec<Variable> = Vec::new();
                std::mem::swap(&mut stack, &mut self.stacks[i]);
                stack.push(variable);
                self.stacks[i] = stack;
                proof {
                    assert(self.names == old(self).names);
                    assert forall|n: StringIdx| self@.contains_key(n) implies #[trigger] self@[n]
                        == old(self)@.insert(name, old(self)@[name].push(variable))[n] by {
                        let p = position(self.names@, n);
                        if n == name {
                            lemma_position_unique(self.names@, n, i as int);
                        } else {
                            assert(p != i);
                        }
                    }
                    assert(self@ =~= old(self)@.insert(name, old(self)@[name].push(variable)));
                }
            },
            None => {
                let mut stack: Vec<Variable> = Vec::new();
                stack.push(variable);
                self.names.push(name);
                self.stacks.push(stack);
                proof {
                    let last = old(self).names.len() as int;
                    assert(self.names@ =~= old(self).names@.push(name));
                    assert forall|a: int, b: int|
                        0 <= a < self.names.len() && 0 <= b < self.names.len() && a
                            != b implies self.names@[a] != self.names@[b] by {
                        if a == last {
                            assert(old(self).names@[b] == self.names@[b]);
                        } else if b == last {
                            assert(old(self).names@[a] == self.names@[a]);
                        }
                    }
                    assert(stack@ =~= Seq::<Variable>::empty().push(variable));
                    assert forall|n: StringIdx| self@.contains_key(n) implies #[trigger] self@[n]
                        == old(self)@.insert(name, stack@)[n] by {
                        if n == name {
                            lemma_position_unique(self.names@, n, last);
                        } else {
                            let p = position(old(self).names@, n);
                            assert(old(self).names@.contains(n));
                            lemma_position_unique(self.names@, n, p);
                        }
                    }
                    assert forall|n: StringIdx|
                        self@.contains_key(n) <==> old(self)@.insert(name, stack@).contains_key(
                            n,
                        ) by {
                        if old(self).names@.contains(n) {
                            let p = position(old(self).names@, n);
                            assert(self.names@[p] == n);
                        }
                        if n == name {
                            assert(self.names@[last] == n);
                        }
                    }
                    assert(self@ =~= old(self)@.insert(name, stack@));
                }
            },
        }
    }

    /// The variable declared last under `name`.
    pub fn get_last(&self, name: StringIdx) -> (r: Option<&Variable>)
        requires
            self.wf(),
        ensures
            r is Some <==> self@.contains_key(name),
            r matches Some(v) ==> *v == self@[name].last(),
    {
        match self.slot(name) {
            Some(i) => {
                let stack = &self.stacks[i];
                Some(&stack[stack.len() - 1])
            },
            None => None,
        }
    }

    /// All variables declared under `name`, the latest last.
    pub fn get_all(&self, name: StringIdx) -> (r: Option<&Vec<Variable>>)
        requires
            self.wf(),
        ensures
            r is Some <==> self@.contains_key(name),
            r matches Some(v) ==> v@ == self@[name],
    {
        match self.slot(name) {
            Some(i) => Some(&self.stacks[i]),
            None => None,
        }
    }
}

/// Index of a scope.
#[derive(Debug, Copy, Clone, PartialEq, Eq, Hash, Structural)]
pub struct ScopeIdx(pub usize);

/// The scopes of a program.
#[derive(Debug, Clone)]
pub struct ScopeMap {
    scopes: Vec<Scope>,
}

impl ScopeMap {
    /// Number of scopes.
    pub closed spec fn count(&self) -> nat {
        self.scopes.len() as nat
    }

    /// No scopes.
    pub fn new() -> (r: ScopeMap)
        ensures
            r.count() == 0,
    {
        ScopeMap { scopes: Vec::new() }
    }
}

} // verus!
