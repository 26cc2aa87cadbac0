use vstd::prelude::*;

use crate::error::RuntimeError;
use crate::expr::LiteralValue;
use crate::text::{push_all, string_of};
use crate::token::Token;

verus! {

/// A value as the specifications see it: text as a character sequence.
pub type ValueV<F> = LiteralValue<F, Seq<char>>;

pub open spec fn value_view<F>(v: LiteralValue<F>) -> ValueV<F> {
    match v {
        LiteralValue::Int(i) => LiteralValue::Int(i),
        LiteralValue::Float(f) => LiteralValue::Float(f),
        LiteralValue::String(s) => LiteralValue::String(s@),
        LiteralValue::Char(c) => LiteralValue::Char(c),
        LiteralValue::Bool(b) => LiteralValue::Bool(b),
        LiteralValue::Nil => LiteralValue::Nil,
    }
}

impl<F: Copy> LiteralValue<F> {
    /// A copy of the value, equal to it.
    pub fn duplicate(&self) -> (r: Self)
        ensures
            r == *self,
    {
        match self {
            LiteralValue::Int(i) => LiteralValue::Int(*i),
            LiteralValue::Float(f) => LiteralValue::Float(*f),
            LiteralValue::String(s) => LiteralValue::String(s.clone()),
            LiteralValue::Char(c) => LiteralValue::Char(*c),
            LiteralValue::Bool(b) => LiteralValue::Bool(*b),
            LiteralValue::Nil => LiteralValue::Nil,
        }
    }
}

/// The variables of one scope; where a name occurs twice the later entry
/// counts.
pub open spec fn scope_map<F>(entries: Seq<(String, LiteralValue<F>)>) -> Map<Seq<char>, ValueV<F>>
    decreases entries.len(),
{
    if entries.len() == 0 {
        Map::empty()
    } else {
        scope_map(entries.drop_last()).insert(entries.last().0@, value_view(entries.last().1))
    }
}

/// The scopes seen from the innermost: the first that holds a name decides
/// its value.
pub type Scopes<F> = Seq<Map<Seq<char>, ValueV<F>>>;

pub open spec fn lookup<F>(scopes: Scopes<F>, name: Seq<char>) -> Option<ValueV<F>>
    decreases scopes.len(),
{
    if scopes.len() == 0 {
        None
    } else if scopes[0].dom().contains(name) {
        Some(scopes[0][name])
    } else {
        lookup(scopes.drop_first(), name)
    }
}

/// The scopes after `name = v`: the innermost scope that holds `name` gets
/// the new value; `None` where no scope holds it.
pub open spec fn assign_scopes<F>(scopes: Scopes<F>, name: Seq<char>, v: ValueV<F>) -> Option<Scopes<F>>
    decreases scopes.len(),
{
    if scopes.len() == 0 {
        None
    } else if scopes[0].dom().contains(name) {
        Some(scopes.update(0, scopes[0].insert(name, v)))
    } else {
        match assign_scopes(scopes.drop_first(), name, v) {
            Some(rest) => Some(seq![scopes[0]] + rest),
            None => None,
        }
    }
}

/// The scopes after declaring `name` with value `v` in the innermost scope;
/// `None` where that scope already holds `name`.
pub open spec fn define_scopes<F>(scopes: Scopes<F>, name: Seq<char>, v: ValueV<F>) -> Option<Scopes<F>> {
    if scopes.len() == 0 || scopes[0].dom().contains(name) {
        None
    } else {
        Some(scopes.update(0, scopes[0].insert(name, v)))
    }
}

pub open spec fn undefined_message(name: Seq<char>) -> Seq<char> {
    "Undefined variable '"@ + name + "'."@
}

pub open spec fn redefined_message(name: Seq<char>) -> Seq<char> {
    "Variable '"@ + name + "' is already defined in this scope."@
}

/// A scope of variables and the scope around it.
pub struct Environment<F> {
    pub enclosing: Option<Box<Environment<F>>>,
    values: Vec<(String, LiteralValue<F>)>,
}

pub closed spec fn env_scopes<F>(e: Environment<F>) -> Scopes<F>
    decreases e,
{
    let outer = match e.enclosing {
        Some(b) => env_scopes(*b),
        None => Seq::empty(),
    };
    seq![env_scope(e)] + outer
}

pub closed spec fn env_scope<F>(e: Environment<F>) -> Map<Seq<char>, ValueV<F>> {
    scope_map(e.values@)
}

impl<F> View for Environment<F> {
    type V = Scopes<F>;

    open spec fn view(&self) -> Scopes<F> {
        env_scopes(*self)
    }
}

/// There is always at least the global scope.
pub proof fn lemma_env_nonempty<F>(e: Environment<F>)
    ensures
        e@.len() >= 1,
{
}

proof fn lemma_scope_map_index<F>(entries: Seq<(String, LiteralValue<F>)>, k: int, name: Seq<char>)
    requires
        0 <= k < entries.len(),
        entries[k].0@ == name,
        forall|j: int| k < j < entries.len() ==> (#[trigger] entries[j]).0@ != name,
    ensures
        scope_map(entries).dom().contains(name),
        scope_map(entries)[name] == value_view(entries[k].1),
    decreases entries.len(),
{
    if k < entries.len() - 1 {
        lemma_scope_map_index(entries.drop_last(), k, name);
        assert(entries.last() == entries[entries.len() - 1]);
    }
}

proof fn lemma_scope_map_absent<F>(entries: Seq<(String, LiteralValue<F>)>, name: Seq<char>)
    requires
        forall|j: int| 0 <= j < entries.len() ==> (#[trigger] entries[j]).0@ != name,
    ensures
        !scope_map(entries).dom().contains(name),
    decreases entries.len(),
{
    if entries.len() > 0 {
        lemma_scope_map_absent(entries.drop_last(), name);
        assert(entries.last() == entries[entries.len() - 1]);
    }
}

proof fn lemma_scope_map_update<F>(entries: Seq<(String, LiteralValue<F>)>, k: int, key: String, v: LiteralValue<F>)
    requires
        0 <= k < entries.len(),
        key@ == entries[k].0@,
        forall|j: int| k < j < entries.len() ==> (#[trigger] entries[j]).0@ != entries[k].0@,
    ensures
        scope_map(entries.update(k, (key, v))) == scope_map(entries).insert(entries[k].0@, value_view(v)),
    decreases entries.len(),
{
    let e2 = entries.update(k, (key, v));
    if k == entries.len() - 1 {
        assert(e2.drop_last() =~= entries.drop_last());
        assert(scope_map(e2) =~= scope_map(entries).insert(entries[k].0@, value_view(v)));
    } else {
        lemma_scope_map_update(entries.drop_last(), k, key, v);
        assert(e2.drop_last() =~= entries.drop_last().update(k, (key, v)));
        assert(entries.last() == entries[entries.len() - 1]);
        assert(scope_map(e2) =~= scope_map(entries).insert(entries[k].0@, value_view(v)));
    }
}

fn undefined_error(name: &Token) -> (e: RuntimeError)
    ensures
        e@ == (RuntimeError { token: name@, message: undefined_message(name@.lexeme) }),
{
    let mut m = string_of("Undefined variable '");
    push_all(&mut m, name.lexeme.as_str());
    push_all(&mut m, "'.");
    RuntimeError::new(name.duplicate(), m)
}

impl<F: Copy> Environment<F> {
    /// The global scope: empty, with nothing around it.
    pub fn new() -> (e: Self)
        ensures
            e@ == seq![Map::<Seq<char>, ValueV<F>>::empty()],
    {
        let e = Environment { enclosing: None, values: Vec::new() };
        assert(scope_map(e.values@) =~= Map::empty());
        assert(e@ =~= seq![Map::<Seq<char>, ValueV<F>>::empty()]);
        e
    }

    /// An empty scope inside `enclosing`.
    pub fn new_with_enclosing(enclosing: Environment<F>) -> (e: Self)
        ensures
            e@ == seq![Map::<Seq<char>, ValueV<F>>::empty()] + enclosing@,
    {
        let e = Environment { enclosing: Some(Box::new(enclosing)), values: Vec::new() };
        assert(scope_map(e.values@) =~= Map::empty());
        e
    }

    /// Enters a new, empty innermost scope.
    pub fn enter_scope(&mut self)
        ensures
            final(self)@ == seq![Map::<Seq<char>, ValueV<F>>::empty()] + old(self)@,
    {
        let mut outer = Environment::new();
        core::mem::swap(&mut outer, self);
        *self = Environment::new_with_enclosing(outer);
    }

    /// Leaves the innermost scope: the scope around it takes its place. The
    /// outermost scope is never left.
    pub fn exit_scope(&mut self)
        ensures
            old(self)@.len() > 1 ==> final(self)@ == old(self)@.drop_first(),
            old(self)@.len() <= 1 ==> final(self)@ == old(self)@,
    {
        proof { lemma_env_nonempty(*self); }
        assert(old(self)@.drop_first() =~= match old(self).enclosing {
            Some(b) => env_scopes(*b),
            None => Seq::empty(),
        });
        if self.enclosing.is_some() {
            let outer = self.enclosing.take();
            match outer {
                Some(b) => {
                    *self = *b;
                },
                None => {},
            }
        }
    }

    /// Index of the last entry for `name` in this scope.
    fn find(&self, name: &String) -> (r: Option<usize>)
        ensures
            r is None ==> !env_scope(*self).dom().contains(name@),
            r matches Some(k) ==> {
                &&& k < self.values@.len()
                &&& self.values@[k as int].0@ == name@
                &&& forall|j: int| k < j < self.values@.len() ==> (#[trigger] self.values@[j]).0@ != name@
                &&& env_scope(*self).dom().contains(name@)
                &&& env_scope(*self)[name@] == value_view(self.values@[k as int].1)
            },
    {
        let mut k = self.values.len();
        while k > 0
            invariant
                k <= self.values@.len(),
                forall|j: int| k <= j < self.values@.len() ==> (#[trigger] self.values@[j]).0@ != name@,
            decreases k,
        {
            if self.values[k - 1].0 == *name {
                proof { lemma_scope_map_index(self.values@, k - 1, name@); }
                return Some(k - 1);
            }
            k = k - 1;
        }
        proof { lemma_scope_map_absent(self.values@, name@); }
        None
    }

    /// Declares `name_token`'s name in this scope with `value`; an error where
    /// this scope already holds the name.
    pub fn define(&mut self, name_token: &Token, value: LiteralValue<F>) -> (r: Result<(), RuntimeError>)
        ensures
            match define_scopes(old(self)@, name_token@.lexeme, value_view(value)) {
                Some(s) => r is Ok && final(self)@ == s,
                None => r matches Err(e) && e@ == (RuntimeError {
                    token: name_token@,
                    message: redefined_message(name_token@.lexeme),
                }) && final(self)@ == old(self)@,
            },
    {
        let name = &name_token.lexeme;
        if self.find(name).is_some() {
            let mut m = string_of("Variable '");
            push_all(&mut m, name.as_str());
            push_all(&mut m, "' is already defined in this scope.");
            return Err(RuntimeError::new(name_token.duplicate(), m));
        }
        let ghost before = self.values@;
        self.values.push((name.clone(), value));
        assert(self.values@.drop_last() =~= before);
        assert(self@ =~= old(self)@.update(0, old(self)@[0].insert(name@, value_view(value))));
        Ok(())
    }

    /// The value of the variable named by `name`, from the innermost scope
    /// that holds it; an error where none does.
    pub fn get(&self, name: &Token) -> (r: Result<LiteralValue<F>, RuntimeError>)
        ensures
            match lookup(self@, name@.lexeme) {
                Some(v) => r matches Ok(x) && value_view(x) == v,
                None => r matches Err(e) && e@ == (RuntimeError {
                    token: name@,
                    message: undefined_message(name@.lexeme),
                }),
            },
        decreases self,
    {
        match self.find(&name.lexeme) {
            Some(k) => {
                return Ok(self.values[k].1.duplicate());
            },
            None => {},
        }
        assert(self@.drop_first() =~= match self.enclosing {
            Some(b) => env_scopes(*b),
            None => Seq::empty(),
        });
        assert(self@[0] == env_scope(*self));
        assert(lookup(self@, name@.lexeme) == lookup(self@.drop_first(), name@.lexeme));
        match &self.enclosing {
            Some(b) => b.get(name),
            None => Err(undefined_error(name)),
        }
    }

    /// Gives the variable named by `name` the value `value`, in the innermost
    /// scope that holds it; an error where none does.
    pub fn assign(&mut self, name: &Token, value: LiteralValue<F>) -> (r: Result<(), RuntimeError>)
        ensures
            match assign_scopes(old(self)@, name@.lexeme, value_view(value)) {
                Some(s) => r is Ok && final(self)@ == s,
                None => r matches Err(e) && e@ == (RuntimeError {
                    token: name@,
                    message: undefined_message(name@.lexeme),
                }) && final(self)@ == old(self)@,
            },
        decreases *old(self),
    {
        match self.find(&name.lexeme) {
            Some(k) => {
                let ghost before = self.values@;
                let key = name.lexeme.clone();
                let ghost entry = (key, value);
                self.values.set(k, (key, value));
                proof { lemma_scope_map_update(before, k as int, entry.0, value); }
                assert(self.values@ =~= before.update(k as int, entry));
                assert(self@ =~= old(self)@.update(0, old(self)@[0].insert(name@.lexeme, value_view(value))));
                return Ok(());
            },
            None => {},
        }
        assert(old(self)@.drop_first() =~= match old(self).enclosing {
            Some(b) => env_scopes(*b),
            None => Seq::empty(),
        });
        match &mut self.enclosing {
            Some(b) => {
                let r = b.assign(name, value);
                proof {
                    if r is Ok {
                        assert(self@ =~= seq![old(self)@[0]] + assign_scopes(old(self)@.drop_first(), name@.lexeme, value_view(value))->0);
                    } else {
                        assert(self@ =~= old(self)@);
                    }
                }
                r
            },
            None => Err(undefined_error(name)),
        }
    }
}


/// An assignment changes values, never the number of scopes.
pub proof fn lemma_assign_len<F>(scopes: Scopes<F>, name: Seq<char>, v: ValueV<F>)
    ensures
        assign_scopes(scopes, name, v) matches Some(s2) ==> s2.len() == scopes.len(),
    decreases scopes.len(),
{
    if scopes.len() > 0 && !scopes[0].dom().contains(name) {
        lemma_assign_len(scopes.drop_first(), name, v);
    }
}

/// Reading a variable right after declaring it gives the declared value.
pub proof fn law_get_after_define<F>(scopes: Scopes<F>, name: Seq<char>, v: ValueV<F>)
    requires
        define_scopes(scopes, name, v) is Some,
    ensures
        lookup(define_scopes(scopes, name, v)->0, name) == Some(v),
{
}

/// A name cannot be declared twice in the same scope.
pub proof fn law_define_twice_fails<F>(scopes: Scopes<F>, name: Seq<char>, v: ValueV<F>, w: ValueV<F>)
    requires
        define_scopes(scopes, name, v) is Some,
    ensures
        define_scopes(define_scopes(scopes, name, v)->0, name, w) is None,
{
}

/// Reading a variable right after assigning to it gives the assigned value.
pub proof fn law_get_after_assign<F>(scopes: Scopes<F>, name: Seq<char>, v: ValueV<F>)
    requires
        assign_scopes(scopes, name, v) is Some,
    ensures
        lookup(assign_scopes(scopes, name, v)->0, name) == Some(v),
    decreases scopes.len(),
{
    if !scopes[0].dom().contains(name) {
        law_get_after_assign(scopes.drop_first(), name, v);
        let r = assign_scopes(scopes, name, v)->0;
        assert(r.drop_first() =~= assign_scopes(scopes.drop_first(), name, v)->0);
    }
}

/// Assignment succeeds exactly where some scope declares the variable.
pub proof fn law_assign_needs_declaration<F>(scopes: Scopes<F>, name: Seq<char>, v: ValueV<F>)
    ensures
        assign_scopes(scopes, name, v) is Some <==> lookup(scopes, name) is Some,
    decreases scopes.len(),
{
    if scopes.len() > 0 && !scopes[0].dom().contains(name) {
        law_assign_needs_declaration(scopes.drop_first(), name, v);
    }
}

/// Assigning to one variable leaves every other variable as it was.
pub proof fn law_assign_keeps_others<F>(scopes: Scopes<F>, name: Seq<char>, other: Seq<char>, v: ValueV<F>)
    requires
        name != other,
        assign_scopes(scopes, name, v) is Some,
    ensures
        lookup(assign_scopes(scopes, name, v)->0, other) == lookup(scopes, other),
    decreases scopes.len(),
{
    let r = assign_scopes(scopes, name, v)->0;
    if !scopes[0].dom().contains(name) {
        law_assign_keeps_others(scopes.drop_first(), name, other, v);
        assert(r.drop_first() =~= assign_scopes(scopes.drop_first(), name, v)->0);
        assert(r[0] == scopes[0]);
    } else {
        assert(r.drop_first() =~= scopes.drop_first());
        assert(r[0].dom().contains(other) == scopes[0].dom().contains(other));
    }
}

/// Declaring a variable leaves every other variable as it was.
pub proof fn law_define_keeps_others<F>(scopes: Scopes<F>, name: Seq<char>, other: Seq<char>, v: ValueV<F>)
    requires
        name != other,
        define_scopes(scopes, name, v) is Some,
    ensures
        lookup(define_scopes(scopes, name, v)->0, other) == lookup(scopes, other),
{
    let r = define_scopes(scopes, name, v)->0;
    assert(r.drop_first() =~= scopes.drop_first());
    assert(r[0].dom().contains(other) == scopes[0].dom().contains(other));
}

/// A declaration touches only the innermost scope: the scopes around it, which
/// are what is left once the block ends, are as they were.
pub proof fn law_define_keeps_outer_scopes<F>(scopes: Scopes<F>, name: Seq<char>, v: ValueV<F>)
    requires
        define_scopes(scopes, name, v) is Some,
    ensures
        define_scopes(scopes, name, v)->0.drop_first() == scopes.drop_first(),
        define_scopes(scopes, name, v)->0.len() == scopes.len(),
{
    assert(define_scopes(scopes, name, v)->0.drop_first() =~= scopes.drop_first());
}

/// A declaration in an inner scope hides an outer variable of the same name
/// only while the inner scope lasts.
pub proof fn law_shadowing<F>(outer: Scopes<F>, name: Seq<char>, v: ValueV<F>)
    ensures
        define_scopes(seq![Map::<Seq<char>, ValueV<F>>::empty()] + outer, name, v) is Some,
        lookup(define_scopes(seq![Map::<Seq<char>, ValueV<F>>::empty()] + outer, name, v)->0, name) == Some(v),
        define_scopes(seq![Map::<Seq<char>, ValueV<F>>::empty()] + outer, name, v)->0.drop_first() == outer,
{
    let inner = seq![Map::<Seq<char>, ValueV<F>>::empty()] + outer;
    assert(inner.drop_first() =~= outer);
    assert(define_scopes(inner, name, v)->0.drop_first() =~= outer);
}
} // verus!
