use vstd::prelude::*;

use crate::codec::{decode, spec_decode};
use crate::errors::ModbusError;
use crate::planner::{member_seq, plan_windows, planned, window_ok, Window};
use crate::register::{ModBusRegisters, Register};
use crate::types::RegisterValue;

verus! {

/// What reading register `r` gives, out of the words read from `start` on:
/// its own words decoded as its type. `None` where the words do not cover
/// the register or do not decode.
pub open spec fn member_value(words: Seq<u16>, start: u16, r: Register) -> Option<RegisterValue> {
    let off = r.addr as int - start as int;
    if 0 <= off && off + r.len as int <= words.len() {
        spec_decode(words.subrange(off, off + r.len as int), r.data_type)
    } else {
        None
    }
}

/// The named value that member `i` of a window read from `start` gives, if
/// its words decode.
pub open spec fn value_entry(regs: Seq<Register>, start: u16, words: Seq<u16>) -> spec_fn(usize) -> Option<(String, RegisterValue)> {
    |i: usize|
        match member_value(words, start, regs[i as int]) {
            Some(v) => Some((regs[i as int].name, v)),
            None => None,
        }
}

/// The name of member `i` of a window read from `start`, if its words do
/// not decode.
pub open spec fn skipped_entry(regs: Seq<Register>, start: u16, words: Seq<u16>) -> spec_fn(usize) -> Option<String> {
    |i: usize|
        match member_value(words, start, regs[i as int]) {
            Some(v) => None,
            None => Some(regs[i as int].name),
        }
}

/// The named values that a window's words give, in the window's order.
pub open spec fn window_values(regs: Seq<Register>, w: Window, words: Seq<u16>) -> Seq<(String, RegisterValue)> {
    w.members@.filter_map(value_entry(regs, w.start, words))
}

/// The names of a window's registers whose words did not decode.
pub open spec fn window_skipped(regs: Seq<Register>, w: Window, words: Seq<u16>) -> Seq<String> {
    w.members@.filter_map(skipped_entry(regs, w.start, words))
}

/// What a batch read gives: the values that decoded, the names of the
/// registers that were dropped because their words did not decode, and the
/// requested names that no register has.
#[derive(Debug, Clone)]
pub struct ReadOutcome {
    pub values: Vec<(String, RegisterValue)>,
    pub skipped: Vec<String>,
    pub unknown: Vec<String>,
}

/// The value last given for `name` in `s`, if any: where a name comes twice,
/// the later value stands, as in a map filled in order.
pub open spec fn value_of(s: Seq<(String, RegisterValue)>, name: Seq<char>) -> Option<RegisterValue>
    decreases s.len(),
{
    if s.len() == 0 {
        None
    } else if s.last().0@ == name {
        Some(s.last().1)
    } else {
        value_of(s.drop_last(), name)
    }
}

impl ReadOutcome {
    /// The value read for `name`; `ConversionError` where there is none,
    /// as for a register whose words did not decode.
    pub fn register_value(&self, name: &str) -> (r: Result<RegisterValue, ModbusError>)
        ensures
            r == match value_of(self.values@, name@) {
                Some(v) => Ok::<RegisterValue, ModbusError>(v),
                None => Err(ModbusError::ConversionError),
            },
    {
        let key = name.to_owned();
        let mut i: usize = self.values.len();
        assert(self.values@.take(i as int) =~= self.values@);
        while i > 0
            invariant
                i <= self.values@.len(),
                key@ == name@,
                value_of(self.values@, name@) == value_of(self.values@.take(i as int), name@),
            decreases i,
        {
            let ghost t = self.values@.take(i as int);
            proof {
                assert(t.drop_last() =~= self.values@.take(i - 1));
            }
            if self.values[i - 1].0 == key {
                return Ok(self.values[i - 1].1);
            }
            i = i - 1;
        }
        Err(ModbusError::ConversionError)
    }
}

/// A read of several registers of one address space, one request per
/// window.
///
/// The caller asks `next_request` for the words to read, reads them, and
/// hands them to `accept_words`, until `next_request` gives `None`. A
/// failed read ends the whole batch with its error.
#[derive(Debug)]
pub struct BatchRead {
    pub space: ModBusRegisters,
    pub registers: Vec<Register>,
    pub windows: Vec<Window>,
    pub next: usize,
    pub outcome: ReadOutcome,
}

impl BatchRead {
    pub open spec fn wf(&self) -> bool {
        &&& planned(self.registers@, self.windows@)
        &&& self.next <= self.windows@.len()
    }

    /// Starts a read of `regs` from `space`, planned into windows.
    pub fn new(regs: Vec<Register>, space: ModBusRegisters) -> (b: BatchRead)
        ensures
            b.wf(),
            b.space == space,
            b.registers@ == regs@,
            b.next == 0,
            b.outcome.values@.len() == 0,
            b.outcome.skipped@.len() == 0,
            b.outcome.unknown@.len() == 0,
    {
        let windows = plan_windows(&regs);
        BatchRead {
            space,
            registers: regs,
            windows,
            next: 0,
            outcome: ReadOutcome { values: Vec::new(), skipped: Vec::new(), unknown: Vec::new() },
        }
    }

    /// The read to make next, as first address and number of words; `None`
    /// once every window has been read.
    pub fn next_request(&self) -> (r: Option<(u16, u16)>)
        requires
            self.wf(),
        ensures
            self.next < self.windows@.len() ==> r == Some(
                (self.windows@[self.next as int].start, self.windows@[self.next as int].count),
            ),
            self.next >= self.windows@.len() ==> r is None,
    {
        if self.next < self.windows.len() {
            let w = &self.windows[self.next];
            Some((w.start, w.count))
        } else {
            None
        }
    }

    /// Takes the words read for the current window, decodes each of its
    /// registers from its own slice of them, and moves to the next window.
    pub fn accept_words(&mut self, words: &[u16])
        requires
            old(self).wf(),
            old(self).next < old(self).windows@.len(),
        ensures
            final(self).wf(),
            final(self).space == old(self).space,
            final(self).registers == old(self).registers,
            final(self).windows == old(self).windows,
            final(self).next == old(self).next + 1,
            final(self).outcome.unknown == old(self).outcome.unknown,
            final(self).outcome.values@ == old(self).outcome.values@ + window_values(
                old(self).registers@,
                old(self).windows@[old(self).next as int],
                words@,
            ),
            final(self).outcome.skipped@ == old(self).outcome.skipped@ + window_skipped(
                old(self).registers@,
                old(self).windows@[old(self).next as int],
                words@,
            ),
    {
        let ghost w = self.windows@[self.next as int];
        let ghost regs = self.registers@;
        let ghost old_values = self.outcome.values@;
        let ghost old_skipped = self.outcome.skipped@;
        let ghost pre = *self;
        let ghost fv = value_entry(regs, w.start, words@);
        let ghost fs = skipped_entry(regs, w.start, words@);
        proof {
            assert(window_ok(regs, w));
        }
        let start = self.windows[self.next].start;
        let n = self.windows[self.next].members.len();
        let mut k: usize = 0;
        while k < n
            invariant
                self.wf(),
                self.registers@ == regs,
                self.registers == pre.registers,
                self.windows == pre.windows,
                self.space == pre.space,
                self.next == pre.next,
                self.outcome.unknown == pre.outcome.unknown,
                self.windows@[self.next as int] == w,
                self.next < self.windows@.len(),
                window_ok(regs, w),
                start == w.start,
                fv == value_entry(regs, w.start, words@),
                fs == skipped_entry(regs, w.start, words@),
                n == w.members@.len(),
                k <= n,
                self.outcome.values@ == old_values + w.members@.take(k as int).filter_map(fv),
                self.outcome.skipped@ == old_skipped + w.members@.take(k as int).filter_map(fs),
            decreases n - k,
        {
            let idx = self.windows[self.next].members[k];
            let r = decode_member(&self.registers[idx], start, words);
            proof {
                w.members@.lemma_filter_map_take_succ(fv, k as int);
                w.members@.lemma_filter_map_take_succ(fs, k as int);
            }
            let ghost pv = w.members@.take(k as int).filter_map(fv);
            let ghost ps = w.members@.take(k as int).filter_map(fs);
            match r {
                Ok(v) => {
                    let name = self.registers[idx].name.clone();
                    self.outcome.values.push((name, v));
                    proof {
                        assert(self.registers@[idx as int] == regs[idx as int]);
                        assert(member_value(words@, start, regs[idx as int]) == Some(v));
                        assert(fv(idx) == Some((regs[idx as int].name, v)));
                        assert(fs(idx) is None);
                        assert(self.outcome.values@ =~= old_values + (pv + seq![(regs[idx as int].name, v)]));
                        assert(ps + Seq::<String>::empty() =~= ps);
                    }
                },
                Err(_) => {
                    let name = self.registers[idx].name.clone();
                    self.outcome.skipped.push(name);
                    proof {
                        assert(fv(idx) is None);
                        assert(fs(idx) == Some(regs[idx as int].name));
                        assert(self.outcome.skipped@ =~= old_skipped + (ps + seq![regs[idx as int].name]));
                        assert(pv + Seq::<(String, RegisterValue)>::empty() =~= pv);
                    }
                },
            }
            k = k + 1;
        }
        proof {
            assert(w.members@.take(n as int) =~= w.members@);
        }
        let total = self.windows.len();
        assert(self.next < total);
        self.next = self.next + 1;
    }

    /// Whether every window has been read.
    pub fn is_done(&self) -> (r: bool)
        ensures
            r == (self.next >= self.windows@.len()),
    {
        self.next >= self.windows.len()
    }

    /// What the batch has gathered.
    pub fn into_outcome(self) -> (r: ReadOutcome)
        ensures
            r == self.outcome,
    {
        self.outcome
    }
}

/// Decodes register `r` out of the words read from `start` on.
fn decode_member(r: &Register, start: u16, words: &[u16]) -> (res: Result<RegisterValue, ModbusError>)
    ensures
        match member_value(words@, start, *r) {
            Some(v) => res == Ok::<RegisterValue, ModbusError>(v),
            None => res is Err,
        },
{
    if r.addr < start {
        return Err(ModbusError::ConversionError);
    }
    let off = (r.addr - start) as usize;
    let end = off + r.len as usize;
    if end > words.len() {
        return Err(ModbusError::ConversionError);
    }
    decode(&words[off..end], r.data_type)
}

proof fn lemma_member_within(regs: Seq<Register>, w: Window, k: int)
    requires
        window_ok(regs, w),
        0 <= k < w.members@.len(),
    ensures
        w.start <= regs[w.members@[k] as int].addr,
        regs[w.members@[k] as int].end() <= w.start as int + w.count as int,
    decreases w.members@.len() - k,
{
    let m = w.members@;
    if k + 1 < m.len() {
        lemma_member_within(regs, w, k + 1);
        assert(regs[m[k + 1] as int].addr as int == regs[m[k] as int].end());
    }
    lemma_member_start(regs, w, k);
}

proof fn lemma_member_start(regs: Seq<Register>, w: Window, k: int)
    requires
        window_ok(regs, w),
        0 <= k < w.members@.len(),
    ensures
        w.start <= regs[w.members@[k] as int].addr,
    decreases k,
{
    let m = w.members@;
    if k > 0 {
        lemma_member_start(regs, w, k - 1);
        assert(regs[m[k] as int].addr as int == regs[m[k - 1] as int].end());
    }
}

/// Reading a register as a member of its window gives what reading the
/// register's words alone gives, where the device holds the words `mem`.
pub proof fn lemma_batch_equivalence(mem: Seq<u16>, regs: Seq<Register>, w: Window, k: int)
    requires
        window_ok(regs, w),
        0 <= k < w.members@.len(),
        w.start as int + w.count as int <= mem.len(),
    ensures
        ({
            let r = regs[w.members@[k] as int];
            member_value(mem.subrange(w.start as int, w.start + w.count), w.start, r) == member_value(
                mem.subrange(r.addr as int, r.end()),
                r.addr,
                r,
            )
        }),
{
    lemma_member_within(regs, w, k);
    let r = regs[w.members@[k] as int];
    let off = r.addr as int - w.start as int;
    let whole = mem.subrange(w.start as int, w.start + w.count);
    let alone = mem.subrange(r.addr as int, r.end());
    assert(whole.subrange(off, off + r.len as int) =~= alone.subrange(0, r.len as int));
}

proof fn lemma_member_seq_find(ws: Seq<Window>, x: int) -> (jk: (int, int))
    requires
        0 <= x < member_seq(ws).len(),
    ensures
        0 <= jk.0 < ws.len(),
        0 <= jk.1 < ws[jk.0].members@.len(),
        ws[jk.0].members@[jk.1] == member_seq(ws)[x],
    decreases ws.len(),
{
    let d = ws.drop_last();
    if x < member_seq(d).len() {
        let (j, k) = lemma_member_seq_find(d, x);
        assert(ws[j] == d[j]);
        (j, k)
    } else {
        let k = x - member_seq(d).len();
        (ws.len() - 1, k)
    }
}

/// Every register of a batch is read in some window of its plan, and what
/// that window's words give for it is what reading the register's words
/// alone gives, where the device holds the words `mem`.
pub proof fn lemma_batch_reads_each_register(mem: Seq<u16>, regs: Seq<Register>, ws: Seq<Window>, i: usize)
    requires
        planned(regs, ws),
        i < regs.len(),
        forall|j: int| 0 <= j < ws.len() ==> #[trigger] ws[j].start as int + ws[j].count as int <= mem.len(),
    ensures
        exists|j: int, k: int|
            0 <= j < ws.len() && 0 <= k < ws[j].members@.len() && #[trigger] ws[j].members@[k] == i
                && member_value(
                mem.subrange(ws[j].start as int, ws[j].start + ws[j].count),
                ws[j].start,
                regs[i as int],
            ) == member_value(mem.subrange(regs[i as int].addr as int, regs[i as int].end()), regs[i as int].addr, regs[i as int]),
{
    let all = member_seq(ws);
    assert(all.contains(i));
    let x = choose|x: int| 0 <= x < all.len() && all[x] == i;
    let (j, k) = lemma_member_seq_find(ws, x);
    assert(window_ok(regs, ws[j]));
    lemma_batch_equivalence(mem, regs, ws[j], k);
    assert(ws[j].start as int + ws[j].count as int <= mem.len());
    assert(ws[j].members@[k] == i);
    let r = regs[i as int];
    assert(member_value(mem.subrange(ws[j].start as int, ws[j].start + ws[j].count), ws[j].start, r)
        == member_value(mem.subrange(r.addr as int, r.end()), r.addr, r));
}

} // verus!
