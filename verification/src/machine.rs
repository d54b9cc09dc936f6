//! The machine state: sixteen signed 32-bit registers, a flat word memory,
//! the carry flag, and the label table. Labels are kept in definition order;
//! the address of a label is its position in that order, so addresses start
//! at 0 and grow by one per new label.

use vstd::prelude::*;
use crate::scan::views_of;

verus! {

pub const NUM_REGISTERS: usize = 16;

pub const MEMORY_SIZE: usize = 1024;

/// The mathematical model of the machine state.
pub struct MachineView {
    pub regs: Seq<i32>,
    pub mem: Seq<i32>,
    pub carry: u32,
    pub labels: Seq<Seq<u8>>,
}

/// The position of the first label equal to `name`, at or after `i`; that
/// position is the label's memory address.
pub open spec fn find_label(labels: Seq<Seq<u8>>, name: Seq<u8>, i: int) -> Option<int>
    decreases labels.len() - i when 0 <= i <= labels.len()
{
    if i >= labels.len() {
        None
    } else if labels[i] == name {
        Some(i)
    } else {
        find_label(labels, name, i + 1)
    }
}

impl MachineView {
    /// Well-formedness: fixed register and memory sizes, a one-bit carry,
    /// and a label table within the memory bound with pairwise-distinct names.
    pub open spec fn wf(self) -> bool {
        &&& self.regs.len() == NUM_REGISTERS
        &&& self.mem.len() == MEMORY_SIZE
        &&& self.carry <= 1
        &&& self.labels.len() <= MEMORY_SIZE
        &&& forall|i: int, j: int|
            0 <= i < j < self.labels.len() ==> self.labels[i] != self.labels[j]
    }

    pub open spec fn label_addr(self, name: Seq<u8>) -> Option<int> {
        find_label(self.labels, name, 0)
    }

    pub open spec fn has_label(self, name: Seq<u8>) -> bool {
        self.label_addr(name) is Some
    }

    pub open spec fn with_reg(self, i: int, v: i32) -> MachineView {
        MachineView { regs: self.regs.update(i, v), ..self }
    }

    pub open spec fn with_mem(self, a: int, v: i32) -> MachineView {
        MachineView { mem: self.mem.update(a, v), ..self }
    }

    pub open spec fn with_carry(self, c: u32) -> MachineView {
        MachineView { carry: c, ..self }
    }

    pub open spec fn with_label(self, name: Seq<u8>) -> MachineView {
        MachineView { labels: self.labels.push(name), ..self }
    }
}

/// The machine state a run owns exclusively from first line to halt.
pub struct Machine {
    pub regs: Vec<i32>,
    pub mem: Vec<i32>,
    pub carry: u32,
    pub labels: Vec<Vec<u8>>,
}

impl View for Machine {
    type V = MachineView;

    open spec fn view(&self) -> MachineView {
        MachineView {
            regs: self.regs@,
            mem: self.mem@,
            carry: self.carry,
            labels: views_of(self.labels@),
        }
    }
}

impl Machine {
    /// A fresh machine: registers and memory all zero, carry clear, no labels.
    pub fn new() -> (m: Machine)
        ensures
            m@.wf(),
            m@.regs =~= Seq::new(NUM_REGISTERS as nat, |i: int| 0i32),
            m@.mem =~= Seq::new(MEMORY_SIZE as nat, |i: int| 0i32),
            m@.carry == 0,
            m@.labels =~= Seq::<Seq<u8>>::empty(),
    {
        let mut regs: Vec<i32> = Vec::new();
        let mut i: usize = 0;
        while i < NUM_REGISTERS
            invariant
                i <= NUM_REGISTERS,
                regs@.len() == i,
                forall|j: int| 0 <= j < i ==> regs@[j] == 0i32,
            decreases NUM_REGISTERS - i,
        {
            regs.push(0);
            i += 1;
        }
        let mut mem: Vec<i32> = Vec::new();
        let mut a: usize = 0;
        while a < MEMORY_SIZE
            invariant
                a <= MEMORY_SIZE,
                mem@.len() == a,
                forall|j: int| 0 <= j < a ==> mem@[j] == 0i32,
            decreases MEMORY_SIZE - a,
        {
            mem.push(0);
            a += 1;
        }
        let m = Machine { regs, mem, carry: 0, labels: Vec::new() };
        proof {
            assert(m@.regs =~= Seq::new(NUM_REGISTERS as nat, |i: int| 0i32));
            assert(m@.mem =~= Seq::new(MEMORY_SIZE as nat, |i: int| 0i32));
            assert(m@.labels =~= Seq::<Seq<u8>>::empty());
        }
        m
    }

    pub fn get_reg(&self, i: usize) -> (r: i32)
        requires
            self@.wf(),
            i < NUM_REGISTERS,
        ensures
            r == self@.regs[i as int],
    {
        self.regs[i]
    }

    pub fn set_reg(&mut self, i: usize, v: i32)
        requires
            old(self)@.wf(),
            i < NUM_REGISTERS,
        ensures
            final(self)@ == old(self)@.with_reg(i as int, v),
            final(self)@.wf(),
    {
        self.regs.set(i, v);
        proof {
            assert(final(self)@.labels =~~= old(self)@.labels);
        }
    }

    pub fn read_mem(&self, a: usize) -> (r: i32)
        requires
            self@.wf(),
            a < MEMORY_SIZE,
        ensures
            r == self@.mem[a as int],
    {
        self.mem[a]
    }

    pub fn write_mem(&mut self, a: usize, v: i32)
        requires
            old(self)@.wf(),
            a < MEMORY_SIZE,
        ensures
            final(self)@ == old(self)@.with_mem(a as int, v),
            final(self)@.wf(),
    {
        self.mem.set(a, v);
        proof {
            assert(final(self)@.labels =~~= old(self)@.labels);
        }
    }

    pub fn set_carry(&mut self, c: u32)
        requires
            old(self)@.wf(),
            c <= 1,
        ensures
            final(self)@ == old(self)@.with_carry(c),
            final(self)@.wf(),
    {
        self.carry = c;
        proof {
            assert(final(self)@.labels =~~= old(self)@.labels);
        }
    }

    pub fn get_carry(&self) -> (c: u32)
        requires
            self@.wf(),
        ensures
            c == self@.carry,
            c <= 1,
    {
        self.carry
    }

    /// How many labels are defined; also the next label's address.
    pub fn label_count(&self) -> (n: usize)
        ensures
            n == self@.labels.len(),
    {
        self.labels.len()
    }

    /// The address of a defined label, if any.
    pub fn lookup_label(&self, name: &[u8]) -> (r: Option<usize>)
        requires
            self@.wf(),
        ensures
            match r {
                Some(a) => self@.label_addr(name@) == Some(a as int),
                None => self@.label_addr(name@) is None,
            },
    {
        let mut i: usize = 0;
        while i < self.labels.len()
            invariant
                self@.wf(),
                i <= self@.labels.len(),
                self@.labels.len() == self.labels@.len(),
                find_label(self@.labels, name@, 0) == find_label(self@.labels, name@, i as int),
                forall|j: int| 0 <= j < self.labels@.len() ==> self@.labels[j] == self.labels@[j]@,
            decreases self@.labels.len() - i,
        {
            if crate::scan::bytes_eq(self.labels[i].as_slice(), name) {
                return Some(i);
            }
            i += 1;
        }
        None
    }

    /// Registers a fresh label at the next sequential address.
    pub fn push_label(&mut self, name: Vec<u8>) -> (a: usize)
        requires
            old(self)@.wf(),
            !old(self)@.has_label(name@),
            old(self)@.labels.len() < MEMORY_SIZE,
        ensures
            final(self)@ == old(self)@.with_label(name@),
            final(self)@.wf(),
            a as int == old(self)@.labels.len(),
            final(self)@.label_addr(name@) == Some(a as int),
    {
        let a = self.labels.len();
        proof {
            lemma_absent_means_no_index(old(self)@.labels, name@, 0);
        }
        self.labels.push(name);
        proof {
            assert(final(self)@.labels =~~= old(self)@.labels.push(name@));
            lemma_find_label_push(old(self)@.labels, name@);
        }
        a
    }
}

/// An undefined label occurs nowhere in the table.
pub proof fn lemma_absent_means_no_index(labels: Seq<Seq<u8>>, name: Seq<u8>, i: int)
    requires
        0 <= i <= labels.len(),
        find_label(labels, name, i) is None,
    ensures
        forall|j: int| i <= j < labels.len() ==> labels[j] != name,
    decreases labels.len() - i,
{
    if i < labels.len() {
        lemma_absent_means_no_index(labels, name, i + 1);
    }
}

/// Pushing a name absent from the table makes its address the old length.
pub proof fn lemma_find_label_push(labels: Seq<Seq<u8>>, name: Seq<u8>)
    requires
        find_label(labels, name, 0) is None,
    ensures
        find_label(labels.push(name), name, 0) == Some(labels.len() as int),
{
    lemma_find_label_push_from(labels, name, 0);
}

proof fn lemma_find_label_push_from(labels: Seq<Seq<u8>>, name: Seq<u8>, i: int)
    requires
        0 <= i <= labels.len(),
        find_label(labels, name, i) is None,
    ensures
        find_label(labels.push(name), name, i) == Some(labels.len() as int),
    decreases labels.len() - i,
{
    if i < labels.len() {
        lemma_find_label_push_from(labels, name, i + 1);
    }
}

/// A found label lies inside the table at a position bearing its name.
pub proof fn lemma_find_label_valid(labels: Seq<Seq<u8>>, name: Seq<u8>, i: int)
    requires
        0 <= i <= labels.len(),
    ensures
        match find_label(labels, name, i) {
            Some(a) => i <= a < labels.len() && labels[a] == name,
            None => true,
        },
    decreases labels.len() - i,
{
    if i < labels.len() {
        lemma_find_label_valid(labels, name, i + 1);
    }
}

} // verus!
