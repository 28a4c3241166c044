use vstd::prelude::*;

use crate::register::Register;

verus! {

/// Largest number of words one read request may ask for.
pub const MODBUS_MAX_READ_LEN: u16 = 125;

/// A run of registers read with a single request: `count` words from
/// `start`. `members` are indices into the list of requested registers, in
/// ascending address order.
#[derive(Debug, Clone)]
pub struct Window {
    pub start: u16,
    pub count: u16,
    pub members: Vec<usize>,
}

/// `s` holds each index below `n` exactly once.
pub open spec fn is_index_perm(s: Seq<usize>, n: nat) -> bool {
    &&& s.len() == n
    &&& forall|i: int| 0 <= i < s.len() ==> s[i] < n
    &&& forall|i: int, j: int| 0 <= i < j < s.len() ==> s[i] != s[j]
    &&& forall|k: usize| k < n ==> s.contains(k)
}

/// The registers that `s` points at come in ascending address order.
pub open spec fn addr_sorted(regs: Seq<Register>, s: Seq<usize>) -> bool {
    forall|i: int, j: int| 0 <= i < j < s.len() ==> regs[s[i] as int].addr <= regs[s[j] as int].addr
}

/// Registers of `s` at the same address come in the order of their indices.
pub open spec fn ties_in_order(regs: Seq<Register>, s: Seq<usize>) -> bool {
    forall|i: int, j: int|
        0 <= i < j < s.len() && regs[s[i] as int].addr == regs[s[j] as int].addr ==> s[i] < s[j]
}

/// Register `next` may join a run that begins with `first` and ends with
/// `last`: it starts right where `last` ends, and the run then still fits
/// in one request.
pub open spec fn extends(regs: Seq<Register>, first: usize, last: usize, next: usize) -> bool {
    &&& regs[next as int].addr as int == regs[last as int].end()
    &&& regs[next as int].end() <= regs[first as int].addr as int + MODBUS_MAX_READ_LEN as int
}

/// `w` is a gap-free run of registers of `regs`, and its request covers
/// exactly their words.
pub open spec fn window_ok(regs: Seq<Register>, w: Window) -> bool {
    let m = w.members@;
    &&& m.len() >= 1
    &&& forall|k: int| 0 <= k < m.len() ==> m[k] < regs.len()
    &&& w.start == regs[m[0] as int].addr
    &&& w.start as int + w.count as int == regs[m.last() as int].end()
    &&& forall|k: int| 1 <= k < m.len() ==> extends(regs, m[0], m[k - 1], #[trigger] m[k])
}

/// The members of all windows, one window after the other.
pub open spec fn member_seq(ws: Seq<Window>) -> Seq<usize>
    decreases ws.len(),
{
    if ws.len() == 0 {
        seq![]
    } else {
        member_seq(ws.drop_last()) + ws.last().members@
    }
}

/// `ws` is the plan for reading `regs`: the registers in ascending address
/// order (those at one address in the order given), each exactly once, cut into gap-free windows, each window as long
/// as it can be (the first register of a window could not have joined the
/// window before it).
pub open spec fn planned(regs: Seq<Register>, ws: Seq<Window>) -> bool {
    &&& is_index_perm(member_seq(ws), regs.len())
    &&& addr_sorted(regs, member_seq(ws))
    &&& ties_in_order(regs, member_seq(ws))
    &&& forall|i: int| 0 <= i < ws.len() ==> window_ok(regs, #[trigger] ws[i])
    &&& forall|i: int|
        0 <= i < ws.len() - 1 ==> !extends(
            regs,
            ws[i].members@[0],
            ws[i].members@.last(),
            #[trigger] ws[i + 1].members@[0],
        )
}

/// Indices of `regs` ordered by address; registers at the same address keep
/// their order.
pub fn sort_by_address(regs: &Vec<Register>) -> (order: Vec<usize>)
    ensures
        is_index_perm(order@, regs@.len()),
        addr_sorted(regs@, order@),
        ties_in_order(regs@, order@),
{
    let mut order: Vec<usize> = Vec::new();
    let mut i: usize = 0;
    while i < regs.len()
        invariant
            i <= regs@.len(),
            is_index_perm(order@, i as nat),
            addr_sorted(regs@, order@),
            ties_in_order(regs@, order@),
        decreases regs@.len() - i,
    {
        let a = regs[i].addr;
        let mut p: usize = 0;
        while p < order.len() && regs[order[p]].addr <= a
            invariant
                p <= order@.len(),
                is_index_perm(order@, i as nat),
                i < regs@.len(),
                forall|q: int| 0 <= q < p ==> regs@[order@[q] as int].addr <= a,
            decreases order@.len() - p,
        {
            p = p + 1;
        }
        let ghost old_order = order@;
        order.insert(p, i);
        proof {
            let s = order@;
            assert(s == old_order.insert(p as int, i));
            assert forall|x: int, y: int| 0 <= x < y < s.len() implies regs@[s[x] as int].addr
                <= regs@[s[y] as int].addr by {
                if p < old_order.len() {
                    assert(regs@[old_order[p as int] as int].addr > a);
                }
                if x < p && y > p {
                    assert(regs@[old_order[x] as int].addr <= a);
                    assert(regs@[old_order[y - 1] as int].addr > a || y - 1 == p);
                }
            }
            assert forall|x: int, y: int|
                0 <= x < y < s.len() && regs@[s[x] as int].addr == regs@[s[y] as int].addr implies s[x] < s[y] by {
                if p < old_order.len() {
                    assert(regs@[old_order[p as int] as int].addr > a);
                }
                if y == p {
                    assert(s[x] == old_order[x]);
                    assert(old_order[x] < i);
                } else if x == p {
                    assert(s[y] == old_order[y - 1]);
                    assert(regs@[old_order[y - 1] as int].addr > a);
                } else if x < p && y > p {
                    assert(regs@[old_order[y - 1] as int].addr > a);
                }
            }
            assert forall|k: usize| k < i + 1 implies s.contains(k) by {
                if k < i {
                    assert(old_order.contains(k));
                    let q = choose|q: int| 0 <= q < old_order.len() && old_order[q] == k;
                    if q < p {
                        assert(s[q] == k);
                    } else {
                        assert(s[q + 1] == k);
                    }
                } else {
                    assert(s[p as int] == k);
                }
            }
        }
        i = i + 1;
    }
    order
}

fn close_window(regs: &Vec<Register>, first: usize, last: usize, members: Vec<usize>) -> (w: Window)
    requires
        first < regs@.len(),
        last < regs@.len(),
        regs@[first as int].addr <= regs@[last as int].end(),
        regs@[last as int].end() - regs@[first as int].addr <= 0xffff,
    ensures
        w.start == regs@[first as int].addr,
        w.start as int + w.count as int == regs@[last as int].end(),
        w.members == members,
{
    let end = regs[last].addr as u32 + regs[last].len as u32;
    Window { start: regs[first].addr, count: (end - regs[first].addr as u32) as u16, members }
}

proof fn lemma_member_seq_push(ws: Seq<Window>, w: Window)
    ensures
        member_seq(ws.push(w)) == member_seq(ws) + w.members@,
{
    assert(ws.push(w).drop_last() =~= ws);
}

/// Groups the registers into windows, each read with one request.
///
/// No register is read twice, none is left out, and none that was not
/// asked for is read: a window spans only the words of its members.
pub fn plan_windows(regs: &Vec<Register>) -> (ws: Vec<Window>)
    ensures
        planned(regs@, ws@),
{
    let order = sort_by_address(regs);
    let mut ws: Vec<Window> = Vec::new();
    if order.len() == 0 {
        assert(member_seq(ws@) =~= order@);
        return ws;
    }
    let mut first: usize = order[0];
    let mut last: usize = order[0];
    let mut members: Vec<usize> = vec![first];
    let mut i: usize = 1;
    while i < order.len()
        invariant
            1 <= i <= order@.len(),
            order@.len() == regs@.len(),
            is_index_perm(order@, regs@.len()),
            addr_sorted(regs@, order@),
            ties_in_order(regs@, order@),
            member_seq(ws@) + members@ == order@.take(i as int),
            members@.len() >= 1,
            members@[0] == first,
            members@.last() == last,
            first < regs@.len(),
            last < regs@.len(),
            forall|k: int| 0 <= k < members@.len() ==> members@[k] < regs@.len(),
            forall|k: int| 1 <= k < members@.len() ==> extends(regs@, first, members@[k - 1], #[trigger] members@[k]),
            regs@[first as int].addr <= regs@[last as int].end(),
            regs@[last as int].end() - regs@[first as int].addr <= 0xffff,
            forall|j: int| 0 <= j < ws@.len() ==> window_ok(regs@, #[trigger] ws@[j]),
            forall|j: int|
                0 <= j < ws@.len() - 1 ==> !extends(
                    regs@,
                    ws@[j].members@[0],
                    ws@[j].members@.last(),
                    #[trigger] ws@[j + 1].members@[0],
                ),
            ws@.len() > 0 ==> !extends(regs@, ws@.last().members@[0], ws@.last().members@.last(), first),
        decreases order@.len() - i,
    {
        let next = order[i];
        let ghost old_members = members@;
        let ghost old_ws = ws@;
        let last_end = regs[last].addr as u32 + regs[last].len as u32;
        let next_end = regs[next].addr as u32 + regs[next].len as u32;
        if regs[next].addr as u32 == last_end && next_end <= regs[first].addr as u32
            + MODBUS_MAX_READ_LEN as u32 {
            members.push(next);
            last = next;
            proof {
                assert(order@.take(i + 1) =~= order@.take(i as int).push(next));
                assert(member_seq(ws@) + members@ =~= (member_seq(ws@) + old_members).push(next));
            }
        } else {
            let w = close_window(regs, first, last, members);
            ws.push(w);
            proof {
                lemma_member_seq_push(old_ws, w);
                assert(ws@[ws@.len() - 1] == w);
                assert forall|j: int| 0 <= j < ws@.len() implies window_ok(regs@, #[trigger] ws@[j]) by {
                    if j < old_ws.len() {
                        assert(ws@[j] == old_ws[j]);
                    }
                }
                assert forall|j: int| 0 <= j < ws@.len() - 1 implies !extends(
                    regs@,
                    ws@[j].members@[0],
                    ws@[j].members@.last(),
                    #[trigger] ws@[j + 1].members@[0],
                ) by {
                    assert(ws@[j] == old_ws[j]);
                    if j + 1 < old_ws.len() {
                        assert(ws@[j + 1] == old_ws[j + 1]);
                    }
                }
            }
            members = vec![next];
            first = next;
            last = next;
            proof {
                assert(order@.take(i + 1) =~= order@.take(i as int).push(next));
                assert(member_seq(ws@) + members@ =~= (member_seq(old_ws) + old_members).push(next));
            }
        }
        i = i + 1;
    }
    let ghost old_ws = ws@;
    let w = close_window(regs, first, last, members);
    ws.push(w);
    proof {
        lemma_member_seq_push(old_ws, w);
        assert(order@.take(i as int) =~= order@);
        assert(ws@[ws@.len() - 1] == w);
        assert forall|j: int| 0 <= j < ws@.len() implies window_ok(regs@, #[trigger] ws@[j]) by {
            if j < old_ws.len() {
                assert(ws@[j] == old_ws[j]);
            }
        }
        assert forall|j: int| 0 <= j < ws@.len() - 1 implies !extends(
            regs@,
            ws@[j].members@[0],
            ws@[j].members@.last(),
            #[trigger] ws@[j + 1].members@[0],
        ) by {
            assert(ws@[j] == old_ws[j]);
            if j + 1 < old_ws.len() {
                assert(ws@[j + 1] == old_ws[j + 1]);
            }
        }
    }
    ws
}

proof fn lemma_member_seq_prefix(ws: Seq<Window>, k: int)
    requires
        0 <= k <= ws.len(),
    ensures
        member_seq(ws.take(k)).len() <= member_seq(ws).len(),
        forall|x: int|
            0 <= x < member_seq(ws.take(k)).len() ==> #[trigger] member_seq(ws)[x] == member_seq(
                ws.take(k),
            )[x],
    decreases ws.len(),
{
    if k == ws.len() {
        assert(ws.take(k) =~= ws);
    } else {
        let d = ws.drop_last();
        lemma_member_seq_prefix(d, k);
        assert(d.take(k) =~= ws.take(k));
    }
}

/// The plan of registers that each fit in one request and whose extents do
/// not overlap reads each register exactly once, in windows that fit in one
/// request, are free of gaps, and follow one another in address order
/// without overlapping.
pub proof fn lemma_plan_correct(regs: Seq<Register>, ws: Seq<Window>)
    requires
        planned(regs, ws),
        forall|i: int| 0 <= i < regs.len() ==> 1 <= #[trigger] regs[i].len <= MODBUS_MAX_READ_LEN,
        forall|i: int, j: int|
            0 <= i < j < regs.len() ==> #[trigger] regs[i].end() <= #[trigger] regs[j].addr
                || regs[j].end() <= regs[i].addr,
    ensures
        is_index_perm(member_seq(ws), regs.len()),
        forall|i: int| 0 <= i < ws.len() ==> #[trigger] ws[i].count <= MODBUS_MAX_READ_LEN,
        forall|i: int, k: int|
            0 <= i < ws.len() && 1 <= k < ws[i].members@.len() ==> regs[#[trigger] ws[i].members@[k] as int].addr
                == regs[ws[i].members@[k - 1] as int].end(),
        forall|i: int|
            0 <= i < ws.len() - 1 ==> ws[i].start as int + ws[i].count as int <= #[trigger] ws[i
                + 1].start,
{
    assert forall|i: int| 0 <= i < ws.len() implies #[trigger] ws[i].count <= MODBUS_MAX_READ_LEN by {
        assert(window_ok(regs, ws[i]));
        let m = ws[i].members@;
        if m.len() > 1 {
            assert(extends(regs, m[0], m[m.len() - 2], m[m.len() - 1]));
        }
    }
    assert forall|i: int, k: int|
        0 <= i < ws.len() && 1 <= k < ws[i].members@.len() implies regs[#[trigger] ws[i].members@[k] as int].addr
            == regs[ws[i].members@[k - 1] as int].end() by {
        assert(window_ok(regs, ws[i]));
    }
    assert forall|i: int| 0 <= i < ws.len() - 1 implies ws[i].start as int + ws[i].count as int
        <= #[trigger] ws[i + 1].start by {
        assert(window_ok(regs, ws[i]));
        assert(window_ok(regs, ws[i + 1]));
        let all = member_seq(ws);
        let a = ws.take(i);
        let b = ws.take(i + 1);
        let c = ws.take(i + 2);
        assert(b.drop_last() =~= a);
        assert(c.drop_last() =~= b);
        assert(b.last() == ws[i]);
        assert(c.last() == ws[i + 1]);
        let p = member_seq(b).len() - 1;
        lemma_member_seq_prefix(ws, i + 2);
        assert(member_seq(c) == member_seq(b) + ws[i + 1].members@);
        assert(member_seq(b) == member_seq(a) + ws[i].members@);
        assert(all[p] == member_seq(c)[p]);
        assert(all[p + 1] == member_seq(c)[p + 1]);
        let x = ws[i].members@.last();
        let y = ws[i + 1].members@[0];
        assert(all[p] == x);
        assert(all[p + 1] == y);
        assert(regs[x as int].addr <= regs[y as int].addr);
        assert(x != y);
        if x < y {
            assert(regs[x as int].end() <= regs[y as int].addr || regs[y as int].end() <= regs[x as int].addr);
        } else {
            assert(regs[y as int].end() <= regs[x as int].addr || regs[x as int].end() <= regs[y as int].addr);
        }
    }
}

} // verus!
