use vstd::prelude::*;

use crate::register::Register;

verus! {

/// No two registers of `s` share a name.
pub open spec fn names_unique(s: Seq<Register>) -> bool {
    forall|i: int, j: int| 0 <= i < j < s.len() ==> s[i].name@ != s[j].name@
}

/// The register of `s` named `name`, if there is one.
pub open spec fn lookup(s: Seq<Register>, name: Seq<char>) -> Option<Register> {
    if exists|i: int| 0 <= i < s.len() && s[i].name@ == name {
        Some(s[choose|i: int| 0 <= i < s.len() && s[i].name@ == name])
    } else {
        None
    }
}

/// The last register of `s` named `name`, if there is one.
pub open spec fn last_named(s: Seq<Register>, name: Seq<char>) -> Option<Register>
    decreases s.len(),
{
    if s.len() == 0 {
        None
    } else if s.last().name@ == name {
        Some(s.last())
    } else {
        last_named(s.drop_last(), name)
    }
}

/// Whether a dump reads the register.
pub open spec fn is_readable() -> spec_fn(Register) -> bool {
    |r: Register| r.read
}

/// The registers of one address space, found by name.
#[derive(Debug)]
pub struct RegisterMap {
    entries: Vec<Register>,
}

impl View for RegisterMap {
    type V = Seq<Register>;

    closed spec fn view(&self) -> Seq<Register> {
        self.entries@
    }
}

proof fn lemma_lookup_at(s: Seq<Register>, i: int)
    requires
        names_unique(s),
        0 <= i < s.len(),
    ensures
        lookup(s, s[i].name@) == Some(s[i]),
{
    let j = choose|j: int| 0 <= j < s.len() && s[j].name@ == s[i].name@;
    assert(j == i);
}

impl RegisterMap {
    pub closed spec fn wf(&self) -> bool {
        names_unique(self.entries@)
    }

    /// A map with no register.
    pub fn new() -> (m: RegisterMap)
        ensures
            m.wf(),
            m@.len() == 0,
    {
        RegisterMap { entries: Vec::new() }
    }

    /// Number of registers.
    pub fn len(&self) -> (n: usize)
        ensures
            n == self@.len(),
    {
        self.entries.len()
    }

    /// Adds `reg`, in place of the register of the same name if there is one.
    pub fn insert(&mut self, reg: Register)
        requires
            old(self).wf(),
        ensures
            final(self).wf(),
            forall|n: Seq<char>|
                #[trigger] lookup(final(self)@, n) == if n == reg.name@ {
                    Some(reg)
                } else {
                    lookup(old(self)@, n)
                },
    {
        let ghost s0 = self.entries@;
        let mut i: usize = 0;
        while i < self.entries.len()
            invariant
                self.entries@ == s0,
                old(self)@ == s0,
                names_unique(s0),
                i <= s0.len(),
                forall|j: int| 0 <= j < i ==> s0[j].name@ != reg.name@,
            decreases s0.len() - i,
        {
            if self.entries[i].name == reg.name {
                self.entries.set(i, reg);
                proof {
                    let s1 = self.entries@;
                    assert(s1 == s0.update(i as int, reg));
                    assert(s0[i as int].name@ == reg.name@);
                    assert forall|x: int| 0 <= x < s1.len() implies #[trigger] s1[x].name@ == s0[x].name@ by {
                    }
                    assert(names_unique(s1));
                    assert forall|n: Seq<char>| #[trigger] lookup(s1, n) == if n == reg.name@ {
                        Some(reg)
                    } else {
                        lookup(s0, n)
                    } by {
                        if n == reg.name@ {
                            lemma_lookup_at(s1, i as int);
                        } else if exists|j: int| 0 <= j < s0.len() && s0[j].name@ == n {
                            let j = choose|j: int| 0 <= j < s0.len() && s0[j].name@ == n;
                            lemma_lookup_at(s0, j);
                            lemma_lookup_at(s1, j);
                        } else {
                            assert(!exists|j: int| 0 <= j < s1.len() && s1[j].name@ == n);
                        }
                    }
                }
                return;
            }
            i = i + 1;
        }
        self.entries.push(reg);
        proof {
            let s1 = self.entries@;
            assert forall|n: Seq<char>| #[trigger] lookup(s1, n) == if n == reg.name@ {
                Some(reg)
            } else {
                lookup(s0, n)
            } by {
                if n == reg.name@ {
                    lemma_lookup_at(s1, s0.len() as int);
                } else if exists|j: int| 0 <= j < s0.len() && s0[j].name@ == n {
                    let j = choose|j: int| 0 <= j < s0.len() && s0[j].name@ == n;
                    lemma_lookup_at(s0, j);
                    lemma_lookup_at(s1, j);
                } else {
                    assert(!exists|j: int| 0 <= j < s1.len() && s1[j].name@ == n);
                }
            }
        }
    }

    /// A map of `regs`; where several share a name, the last of them stays.
    pub fn from_registers(regs: Vec<Register>) -> (m: RegisterMap)
        ensures
            m.wf(),
            forall|n: Seq<char>| #[trigger] lookup(m@, n) == last_named(regs@, n),
    {
        let mut m = RegisterMap::new();
        let mut i: usize = 0;
        while i < regs.len()
            invariant
                m.wf(),
                i <= regs@.len(),
                forall|n: Seq<char>| #[trigger] lookup(m@, n) == last_named(regs@.take(i as int), n),
            decreases regs@.len() - i,
        {
            let r = regs[i].duplicate();
            m.insert(r);
            proof {
                assert(regs@.take(i + 1).drop_last() =~= regs@.take(i as int));
            }
            i = i + 1;
        }
        assert(regs@.take(i as int) =~= regs@);
        m
    }

    /// The register named `name`, if there is one.
    pub fn get(&self, name: &str) -> (r: Option<Register>)
        requires
            self.wf(),
        ensures
            r == lookup(self@, name@),
    {
        let key = name.to_owned();
        let mut i: usize = 0;
        while i < self.entries.len()
            invariant
                key@ == name@,
                names_unique(self.entries@),
                i <= self.entries@.len(),
                forall|j: int| 0 <= j < i ==> self.entries@[j].name@ != name@,
            decreases self.entries@.len() - i,
        {
            if self.entries[i].name == key {
                proof {
                    lemma_lookup_at(self.entries@, i as int);
                }
                return Some(self.entries[i].duplicate());
            }
            i = i + 1;
        }
        None
    }

    /// The registers that a dump reads, in the map's order.
    pub fn readable(&self) -> (r: Vec<Register>)
        ensures
            r@ == self@.filter(is_readable()),
    {
        let ghost s = self.entries@;
        let mut r: Vec<Register> = Vec::new();
        let mut i: usize = 0;
        while i < self.entries.len()
            invariant
                self.entries@ == s,
                i <= s.len(),
                r@ == s.take(i as int).filter(is_readable()),
            decreases s.len() - i,
        {
            proof {
                assert(s.take(i + 1) =~= s.take(i as int).push(s[i as int]));
                s.take(i as int).lemma_filter_push(s[i as int], is_readable());
            }
            if self.entries[i].read {
                r.push(self.entries[i].duplicate());
            }
            i = i + 1;
        }
        assert(s.take(i as int) =~= s);
        r
    }
}

} // verus!
