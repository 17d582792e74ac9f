//! The state of a running program: variables, program counter, open loops.

use crate::exec::error::ErrorKind;
use crate::parser::lower::LowerCase;
use crate::text::lower_text;
use vstd::prelude::*;

verus! {

/// The value that the pairs `p` give to `key`: that of the last pair with
/// this key.
pub open spec fn lookup(p: Seq<(Seq<char>, i64)>, key: Seq<char>) -> Option<i64>
    decreases p.len(),
{
    if p.len() == 0 {
        None
    } else if p.last().0 == key {
        Some(p.last().1)
    } else {
        lookup(p.drop_last(), key)
    }
}

/// The map that the pairs `p` stand for.
pub open spec fn bindings(p: Seq<(Seq<char>, i64)>) -> Map<Seq<char>, i64> {
    Map::new(|k: Seq<char>| lookup(p, k) is Some, |k: Seq<char>| lookup(p, k)->0)
}

/// A new value in the last pair of a name changes what the pairs give to
/// that name, and to no other.
proof fn lemma_lookup_update(p: Seq<(Seq<char>, i64)>, i: int, v: i64, q: Seq<char>)
    requires
        0 <= i < p.len(),
        forall|j: int| i < j < p.len() ==> (#[trigger] p[j]).0 != p[i].0,
    ensures
        lookup(p.update(i, (p[i].0, v)), q) == if q == p[i].0 {
            Some(v)
        } else {
            lookup(p, q)
        },
    decreases p.len(),
{
    let u = p.update(i, (p[i].0, v));
    if i == p.len() - 1 {
        assert(u.drop_last() =~= p.drop_last());
    } else {
        let front = p.drop_last();
        assert(u.drop_last() =~= front.update(i, (front[i].0, v)));
        assert(p.last() == p[p.len() - 1]);
        lemma_lookup_update(front, i, v, q);
    }
}

/// Whether `key` is the lower-case form of some name.
pub open spec fn is_folded(key: Seq<char>) -> bool {
    exists|name: Seq<char>| #[trigger] lower_text(name) == key
}

/// The variables of a program, each under the lower-case form of its name.
///
/// Within, they are pairs of a key and a value; of two pairs with one key
/// the later counts. Every key is the lower-case form of a name: that is the
/// invariant of the type, and [`Variables::assign`], the one way in, keeps it
/// by lowering the case of the identifier it is given.
#[derive(Debug)]
pub struct Variables {
    entries: Vec<(String, i64)>,
}

impl Variables {
    /// The keys and values held, keys as texts.
    pub closed spec fn pairs(&self) -> Seq<(Seq<char>, i64)> {
        Seq::new(self.entries@.len(), |i: int| (self.entries@[i].0@, self.entries@[i].1))
    }

    /// Every key is the lower-case form of a name.
    #[verifier::type_invariant]
    spec fn keys_folded(&self) -> bool {
        forall|i: int| 0 <= i < self.entries@.len() ==> is_folded(#[trigger] self.entries@[i].0@)
    }

    /// No variable at all.
    pub fn new() -> (r: Self)
        ensures
            r@ == Map::<Seq<char>, i64>::empty(),
    {
        let r = Variables { entries: Vec::new() };
        assert(r@ =~= Map::<Seq<char>, i64>::empty());
        r
    }

    /// Index of the last entry under `key`, if there is one.
    fn find(&self, key: &String) -> (r: Option<usize>)
        ensures
            match r {
                Some(i) => i < self.entries@.len() && self.pairs()[i as int].0 == key@
                    && lookup(self.pairs(), key@) == Some(self.pairs()[i as int].1)
                    && forall|j: int|
                    i < j < self.entries@.len() ==> (#[trigger] self.pairs()[j]).0 != key@,
                None => lookup(self.pairs(), key@) is None,
            },
    {
        let mut i: usize = self.entries.len();
        assert(self.pairs().take(i as int) =~= self.pairs());
        while i > 0
            invariant
                i <= self.entries@.len(),
                lookup(self.pairs(), key@) == lookup(self.pairs().take(i as int), key@),
                forall|j: int|
                    i <= j < self.entries@.len() ==> (#[trigger] self.pairs()[j]).0 != key@,
            decreases i,
        {
            let ghost head = self.pairs().take(i as int);
            i -= 1;
            assert(head.last() == self.pairs()[i as int]);
            assert(head.drop_last() =~= self.pairs().take(i as int));
            if self.entries[i].0 == *key {
                return Some(i);
            }
        }
        assert(self.pairs().take(0) =~= Seq::<(Seq<char>, i64)>::empty());
        None
    }

    /// The value under the key `key`.
    fn get(&self, key: &String) -> (r: Option<i64>)
        ensures
            r == if self@.contains_key(key@) {
                Some(self@[key@])
            } else {
                None
            },
    {
        match self.find(key) {
            Some(i) => Some(self.entries[i].1),
            None => None,
        }
    }

    /// Puts `value` under the key `key`, whether or not the key had a value.
    fn insert(&mut self, key: String, value: i64)
        requires
            is_folded(key@),
        ensures
            final(self)@ == old(self)@.insert(key@, value),
    {
        proof {
            use_type_invariant(&*self);
        }
        let ghost before = self.pairs();
        let found = self.find(&key);
        // The entries are taken out while they change, so that the invariant
        // holds of what stays behind.
        let mut entries: Vec<(String, i64)> = Vec::new();
        std::mem::swap(&mut self.entries, &mut entries);
        match found {
            Some(i) => {
                entries.set(i, (key, value));
            },
            None => {
                entries.push((key, value));
            },
        }
        std::mem::swap(&mut self.entries, &mut entries);
        proof {
            match found {
                Some(i) => {
                    assert(self.pairs() =~= before.update(i as int, (before[i as int].0, value)));
                    assert forall|q: Seq<char>|
                        lookup(self.pairs(), q) == (if q == key@ {
                            Some(value)
                        } else {
                            lookup(before, q)
                        }) by {
                        lemma_lookup_update(before, i as int, value, q);
                    }
                },
                None => {
                    assert(self.pairs().drop_last() =~= before);
                    assert(self.pairs().last() == (key@, value));
                },
            }
            assert(self@ =~= old(self)@.insert(key@, value));
        }
    }

    /// The value of the variable that `name` names, in whatever case it is
    /// written.
    pub fn read(&self, name: &LowerCase) -> (r: Option<i64>)
        ensures
            r == if self@.contains_key(name.folded()) {
                Some(self@[name.folded()])
            } else {
                None
            },
    {
        let key = name.key();
        self.get(&key)
    }

    /// Gives the variable that `name` names the value `value`, whether or
    /// not it had one. It is kept under the lower-case form of the name.
    pub fn assign(&mut self, name: &LowerCase, value: i64)
        ensures
            final(self)@ == old(self)@.insert(name.folded(), value),
    {
        let key = name.key();
        assert(lower_text(name.0@) == key@);
        self.insert(key, value);
    }
}

impl View for Variables {
    type V = Map<Seq<char>, i64>;

    /// The values of the variables, by the lower-case forms of their names.
    closed spec fn view(&self) -> Map<Seq<char>, i64> {
        bindings(self.pairs())
    }
}

/// An open `FOR` loop.
#[derive(Debug)]
pub struct LoopState<'a> {
    /// Index of the `FOR` statement.
    pub start_line: usize,
    /// The loop variable.
    pub var_name: LowerCase<'a>,
    /// The bound that ends the loop.
    pub end_value: i64,
    /// What `NEXT` adds to the variable.
    pub step: i64,
}

/// The mathematical model of an open loop. The variable stands by its
/// lower-case form.
pub struct LoopV {
    pub start_line: usize,
    pub var: Seq<char>,
    pub end_value: i64,
    pub step: i64,
}

impl<'a> View for LoopState<'a> {
    type V = LoopV;

    open spec fn view(&self) -> LoopV {
        LoopV {
            start_line: self.start_line,
            var: self.var_name.folded(),
            end_value: self.end_value,
            step: self.step,
        }
    }
}

/// The state of a run.
#[derive(Debug)]
pub struct State<'a> {
    /// The variables, integers all.
    pub vars: Variables,
    /// Index of the statement that runs next.
    pub pc: usize,
    /// The open loops, innermost last.
    pub loop_stack: Vec<LoopState<'a>>,
}

/// The mathematical model of a state.
pub struct StateV {
    pub vars: Map<Seq<char>, i64>,
    pub pc: usize,
    pub loops: Seq<LoopV>,
}

impl<'a> View for State<'a> {
    type V = StateV;

    open spec fn view(&self) -> StateV {
        StateV {
            vars: self.vars@,
            pc: self.pc,
            loops: Seq::new(self.loop_stack@.len(), |i: int| self.loop_stack@[i]@),
        }
    }
}

/// The state in which every run begins.
pub open spec fn initial_state() -> StateV {
    StateV { vars: Map::empty(), pc: 0, loops: Seq::empty() }
}

/// The value of the variable `key` in `vars`, or the failure to find it.
pub open spec fn read_var(vars: Map<Seq<char>, i64>, key: Seq<char>) -> Result<i64, ErrorKind> {
    if vars.contains_key(key) {
        Ok(vars[key])
    } else {
        Err(ErrorKind::NameError)
    }
}

impl<'a> State<'a> {
    /// The value of the variable `ident`; `NameError` where nothing was
    /// assigned to it yet.
    pub fn get_var(&self, ident: &LowerCase) -> (r: Result<i64, ErrorKind>)
        ensures
            r == read_var(self@.vars, ident.folded()),
    {
        match self.vars.read(ident) {
            Some(v) => Ok(v),
            None => Err(ErrorKind::NameError),
        }
    }
}

impl<'a> Default for State<'a> {
    fn default() -> (r: Self)
        ensures
            r@ == initial_state(),
    {
        let r = State { vars: Variables::new(), pc: 0, loop_stack: Vec::new() };
        assert(r@.loops =~= Seq::<LoopV>::empty());
        r
    }
}

} // verus!
