use vstd::prelude::*;
use crate::instr::Instr;
use crate::ops::IdentStr;

verus! {

/// The bytecode of one function.
pub type Bytecode<I> = Vec<Instr<I>>;

/// The compiler's output: for each function name, the function's bytecode.
/// A name stands in it at most once.
pub struct Program<I> {
    funs: Vec<(IdentStr, Bytecode<I>)>,
}

impl<I> Program<I> {
    /// No name stands in the program twice. Every program that this module
    /// hands out is well formed, and every method keeps it so.
    pub closed spec fn wf(self) -> bool {
        forall|i: int, j: int|
            0 <= i < j < self.funs@.len() ==> self.funs@[i].0@ != self.funs@[j].0@
    }

    spec fn defines(self, name: Seq<char>) -> bool {
        exists|i: int| 0 <= i < self.funs@.len() && #[trigger] self.funs@[i].0@ == name
    }

    spec fn position(self, name: Seq<char>) -> int {
        choose|i: int| 0 <= i < self.funs@.len() && #[trigger] self.funs@[i].0@ == name
    }

    proof fn lemma_entry(self, at: int)
        requires
            self.wf(),
            0 <= at < self.funs@.len(),
        ensures
            self@.contains_key(self.funs@[at].0@),
            self@[self.funs@[at].0@] == self.funs@[at].1@,
    {
        let name = self.funs@[at].0@;
        assert(self.defines(name));
        let found = self.position(name);
        assert(found == at) by {
            if found < at {
                assert(self.funs@[found].0@ != self.funs@[at].0@);
            } else if at < found {
                assert(self.funs@[at].0@ != self.funs@[found].0@);
            }
        }
    }

    /// The bytecode stored under `name`, if the program has such a function.
    pub fn get(&self, name: &IdentStr) -> (found: Option<&Bytecode<I>>)
        requires
            self.wf(),
        ensures
            match found {
                Some(code) => self@.contains_key(name@) && code@ == self@[name@],
                None => !self@.contains_key(name@),
            },
    {
        let mut i: usize = 0;
        while i < self.funs.len()
            invariant
                i <= self.funs@.len(),
                self.wf(),
                forall|k: int| 0 <= k < i ==> self.funs@[k].0@ != name@,
            decreases self.funs@.len() - i,
        {
            if self.funs[i].0 == *name {
                proof {
                    self.lemma_entry(i as int);
                }
                return Some(&self.funs[i].1);
            }
            i += 1;
        }
        None
    }

    /// Stores `code` under `name`. What was stored under that name before is
    /// dropped.
    pub fn insert(&mut self, name: IdentStr, code: Bytecode<I>)
        requires
            old(self).wf(),
        ensures
            final(self).wf(),
            final(self)@ == old(self)@.insert(name@, code@),
    {
        let ghost before = *self;
        let mut i: usize = 0;
        while i < self.funs.len()
            invariant
                i <= self.funs@.len(),
                *self == before,
                before == *old(self),
                before.wf(),
                forall|k: int| 0 <= k < i ==> self.funs@[k].0@ != name@,
            decreases self.funs@.len() - i,
        {
            if self.funs[i].0 == name {
                self.funs.set(i, (name, code));
                proof {
                    let after = *self;
                    assert forall|n: Seq<char>| after.defines(n) == before.defines(n) by {
                        if before.defines(n) {
                            let k = before.position(n);
                            assert(after.funs@[k].0@ == n);
                        }
                        if after.defines(n) {
                            let k = after.position(n);
                            assert(before.funs@[k].0@ == n);
                        }
                    }
                    assert forall|n: Seq<char>| after.defines(n) implies after@[n] == before@.insert(
                        name@,
                        code@,
                    )[n] by {
                        let k = after.position(n);
                        after.lemma_entry(k);
                        before.lemma_entry(k);
                        if k != i {
                            assert(before.funs@[k].0@ != before.funs@[i as int].0@);
                        }
                    }
                    before.lemma_entry(i as int);
                    assert(after@ =~= before@.insert(name@, code@));
                }
                return ;
            }
            i += 1;
        }
        self.funs.push((name, code));
        proof {
            let after = *self;
            let last = before.funs@.len() as int;
            assert forall|n: Seq<char>| after.defines(n) == (before.defines(n) || n == name@) by {
                if before.defines(n) {
                    let k = before.position(n);
                    assert(after.funs@[k].0@ == n);
                }
                if n == name@ {
                    assert(after.funs@[last].0@ == n);
                }
                if after.defines(n) {
                    let k = after.position(n);
                    if k < last {
                        assert(before.funs@[k].0@ == n);
                    }
                }
            }
            assert forall|n: Seq<char>| after.defines(n) implies after@[n] == before@.insert(
                name@,
                code@,
            )[n] by {
                let k = after.position(n);
                after.lemma_entry(k);
                if k < last {
                    before.lemma_entry(k);
                }
            }
            assert(after@ =~= before@.insert(name@, code@));
        }
    }
}

impl<I> View for Program<I> {
    type V = Map<Seq<char>, Seq<Instr<I>>>;

    closed spec fn view(&self) -> Map<Seq<char>, Seq<Instr<I>>> {
        Map::new(
            |name: Seq<char>| self.defines(name),
            |name: Seq<char>| self.funs@[self.position(name)].1@,
        )
    }
}

impl<I> Default for Program<I> {
    fn default() -> (program: Self)
        ensures
            program.wf(),
            program@ == Map::<Seq<char>, Seq<Instr<I>>>::empty(),
    {
        let program = Self { funs: Vec::new() };
        assert(program@ =~= Map::<Seq<char>, Seq<Instr<I>>>::empty());
        program
    }
}

} // verus!
