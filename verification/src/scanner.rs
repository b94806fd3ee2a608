//! Planning of historical log scans.
//!
//! Remote endpoints answer log queries only for small block ranges, so the
//! history of a contract is read window by window, from the chain head back
//! to block 1. This module decides which windows are asked for, in which
//! order; performing the queries is the caller's part.

use vstd::prelude::*;

verus! {

/// The number of blocks one log query covers unless the caller picks another.
pub const BLOCKS_PER_CALL: u64 = 500;

/// An inclusive range of block numbers.
#[derive(Clone, Copy, Debug, PartialEq, Eq, Structural)]
pub struct BlockWindow {
    pub from_block: u64,
    pub to_block: u64,
}

/// `a / b`, rounded up.
pub open spec fn ceil_div(a: nat, b: nat) -> nat {
    if b == 0 {
        0
    } else {
        ((a + b - 1) / b as int) as nat
    }
}

/// The first block of the window that ends at `end`: `window` blocks back,
/// but never below block 1.
pub open spec fn window_start(end: nat, window: nat) -> nat {
    if end > window {
        (end - window + 1) as nat
    } else {
        1
    }
}

/// The windows asked for from `end` backwards, newest first. With a budget,
/// at most that many windows are issued; without one the scan runs down to
/// block 1.
pub open spec fn windows_down_from(end: nat, window: nat, budget: Option<nat>) -> Seq<
    BlockWindow,
>
    decreases end,
{
    if end == 0 || window == 0 || end > u64::MAX || budget == Some(0nat) {
        Seq::empty()
    } else {
        let start = window_start(end, window);
        let rest = match budget {
            Some(b) => Some((b - 1) as nat),
            None => None,
        };
        seq![BlockWindow { from_block: start as u64, to_block: end as u64 }]
            + windows_down_from((start - 1) as nat, window, rest)
    }
}

/// The number of windows a depth limit allows: enough to cover `depth`
/// blocks, and one more.
pub open spec fn depth_budget(window: nat, max_depth: Option<u64>) -> Option<nat> {
    match max_depth {
        Some(depth) => Some(ceil_div(depth as nat, window) + 1),
        None => None,
    }
}

/// The windows of a scan that starts at chain height `head`.
pub open spec fn planned_windows(head: u64, window: u64, max_depth: Option<u64>) -> Seq<
    BlockWindow,
> {
    windows_down_from(head as nat, window as nat, depth_budget(window as nat, max_depth))
}

/// The state of a scan between two queries.
#[derive(Clone, Copy, Debug)]
pub struct EventScan {
    end: u64,
    window: u64,
    budget: Option<u128>,
}

impl EventScan {
    /// The windows that are still to be asked for, next one first.
    pub closed spec fn pending(&self) -> Seq<BlockWindow> {
        windows_down_from(
            self.end as nat,
            self.window as nat,
            match self.budget {
                Some(b) => Some(b as nat),
                None => None,
            },
        )
    }

    /// Begins a scan at chain height `head`, with `window` blocks per query.
    /// With `max_depth`, only about that many of the newest blocks are
    /// scanned.
    pub fn start(head: u64, window: u64, max_depth: Option<u64>) -> (scan: EventScan)
        requires
            window >= 1,
        ensures
            scan.pending() == planned_windows(head, window, max_depth),
    {
        let budget = match max_depth {
            Some(depth) => {
                let steps: u128 = (depth as u128 + window as u128 - 1) / (window as u128) + 1;
                Some(steps)
            },
            None => None,
        };
        EventScan { end: head, window, budget }
    }

    /// The next window to query, or `None` when the scan is complete.
    pub fn next_window(&mut self) -> (w: Option<BlockWindow>)
        ensures
            match w {
                Some(x) => old(self).pending().len() > 0 && x == old(self).pending()[0]
                    && final(self).pending() == old(self).pending().skip(1),
                None => old(self).pending().len() == 0 && *final(self) == *old(self),
            },
    {
        if self.end == 0 || self.window == 0 {
            return None;
        }
        let rest = match self.budget {
            Some(b) => {
                if b == 0 {
                    return None;
                }
                Some((b - 1) as u128)
            },
            None => None,
        };
        let start: u64 = if self.end > self.window {
            self.end - self.window + 1
        } else {
            1
        };
        let found = BlockWindow { from_block: start, to_block: self.end };
        proof {
            let tail = windows_down_from(
                (start - 1) as nat,
                self.window as nat,
                match rest {
                    Some(b) => Some(b as nat),
                    None => None,
                },
            );
            assert(old(self).pending() =~= seq![found] + tail);
            assert((seq![found] + tail).skip(1) =~= tail);
        }
        self.end = start - 1;
        self.budget = rest;
        Some(found)
    }
}

/// Whether block `b` lies in window `w`.
pub open spec fn in_window(w: BlockWindow, b: int) -> bool {
    w.from_block <= b <= w.to_block
}

/// Whether block `b` lies in one of the windows `ws`.
pub open spec fn covered(ws: Seq<BlockWindow>, b: int) -> bool {
    exists|i: int| 0 <= i < ws.len() && #[trigger] in_window(ws[i], b)
}

/// Rounding up: one more window is needed for every further `window` blocks.
proof fn lemma_ceil_div_step(end: nat, window: nat)
    requires
        window >= 1,
        end > window,
    ensures
        ceil_div(end, window) == 1 + ceil_div((end - window) as nat, window),
{
    let w = window as int;
    let x = end - window + window - 1;
    assert((x + w) / w == x / w + 1) by (nonlinear_arith)
        requires
            w >= 1,
            x >= 0,
    ;
}

/// A scan without a depth limit, seen from any block `end` downwards: the
/// windows are as many as `end / window` rounded up, each lies within
/// `[1, end]`, the first ends at `end`, the last begins at block 1, each
/// begins right after the next one ends, and every block from 1 to `end` lies
/// in one of them.
pub proof fn lemma_windows_partition(end: nat, window: nat)
    requires
        window >= 1,
        end <= u64::MAX,
    ensures
        ({
            let ws = windows_down_from(end, window, None);
            &&& ws.len() == ceil_div(end, window)
            &&& forall|i: int|
                0 <= i < ws.len() ==> 1 <= (#[trigger] ws[i]).from_block <= ws[i].to_block <= end
            &&& end > 0 ==> ws.len() > 0 && ws[0].to_block == end && ws.last().from_block == 1
            &&& forall|i: int|
                0 <= i && i + 1 < ws.len() ==> (#[trigger] ws[i]).from_block == ws[i + 1].to_block
                    + 1
            &&& forall|b: int| 1 <= b <= end ==> #[trigger] covered(ws, b)
        }),
    decreases end,
{
    let ws = windows_down_from(end, window, None);
    if end > 0 {
        let start = window_start(end, window);
        let first = BlockWindow { from_block: start as u64, to_block: end as u64 };
        let rest = windows_down_from((start - 1) as nat, window, None);
        lemma_windows_partition((start - 1) as nat, window);
        assert(ws =~= seq![first] + rest);
        if end > window {
            lemma_ceil_div_step(end, window);
        } else {
            assert(rest.len() == 0);
            let w = window as int;
            let e = end as int;
            assert((e + w - 1) / w == 1) by (nonlinear_arith)
                requires
                    1 <= e <= w,
            ;
        }
        assert forall|i: int| 0 <= i < ws.len() implies 1 <= (#[trigger] ws[i]).from_block
            <= ws[i].to_block <= end by {
            if i > 0 {
                assert(ws[i] == rest[i - 1]);
            }
        }
        assert forall|i: int| 0 <= i && i + 1 < ws.len() implies (#[trigger] ws[i]).from_block
            == ws[i + 1].to_block + 1 by {
            assert(ws[i + 1] == rest[i]);
            if i > 0 {
                assert(ws[i] == rest[i - 1]);
            }
        }
        if rest.len() > 0 {
            assert(ws.last() == rest.last());
        }
        assert forall|b: int| 1 <= b <= end implies #[trigger] covered(ws, b) by {
            if b >= start {
                assert(in_window(ws[0], b));
            } else {
                assert(covered(rest, b));
                let j = choose|j: int| 0 <= j < rest.len() && #[trigger] in_window(rest[j], b);
                assert(ws[j + 1] == rest[j]);
                assert(in_window(ws[j + 1], b));
            }
        }
    } else {
        let w = window as int;
        assert((0 + w - 1) / w == 0) by (nonlinear_arith)
            requires
                w >= 1,
        ;
    }
}

/// In a scan without a depth limit the windows run strictly downwards, so no
/// two of them share a block.
pub proof fn lemma_windows_disjoint(end: nat, window: nat, i: int, j: int)
    requires
        window >= 1,
        end <= u64::MAX,
        0 <= i < j < windows_down_from(end, window, None).len(),
    ensures
        windows_down_from(end, window, None)[j].to_block < windows_down_from(
            end,
            window,
            None,
        )[i].from_block,
    decreases j - i,
{
    let ws = windows_down_from(end, window, None);
    lemma_windows_partition(end, window);
    if i + 1 < j {
        lemma_windows_disjoint(end, window, i + 1, j);
        assert(ws[i].from_block == ws[i + 1].to_block + 1);
        assert(ws[i + 1].from_block <= ws[i + 1].to_block);
    } else {
        assert(ws[i].from_block == ws[i + 1].to_block + 1);
    }
}

/// A full-history scan from height `head` issues `head / window` windows,
/// rounded up, which together cover the blocks `1..=head` exactly: every
/// block lies in one window and in no second one.
pub proof fn lemma_full_scan_covers(head: u64, window: u64)
    requires
        window >= 1,
    ensures
        planned_windows(head, window, None).len() == ceil_div(head as nat, window as nat),
        forall|i: int|
            0 <= i < planned_windows(head, window, None).len() ==> 1 <= (#[trigger] planned_windows(
                head,
                window,
                None,
            )[i]).from_block <= planned_windows(head, window, None)[i].to_block <= head,
        forall|b: int|
            1 <= b <= head ==> #[trigger] covered(planned_windows(head, window, None), b),
        forall|b: int, i: int, j: int|
            0 <= i < planned_windows(head, window, None).len() && 0 <= j < planned_windows(
                head,
                window,
                None,
            ).len() && #[trigger] in_window(planned_windows(head, window, None)[i], b)
                && #[trigger] in_window(planned_windows(head, window, None)[j], b) ==> i == j,
{
    let ws = planned_windows(head, window, None);
    lemma_windows_partition(head as nat, window as nat);
    assert forall|b: int, i: int, j: int|
        0 <= i < ws.len() && 0 <= j < ws.len() && #[trigger] in_window(ws[i], b)
            && #[trigger] in_window(ws[j], b) implies i == j by {
        if i < j {
            lemma_windows_disjoint(head as nat, window as nat, i, j);
        } else if j < i {
            lemma_windows_disjoint(head as nat, window as nat, j, i);
        }
    }
}

/// A depth limit only cuts the scan short: the windows issued under a budget
/// are the first ones of the scan without a limit.
pub proof fn lemma_budget_takes_prefix(end: nat, window: nat, budget: nat)
    requires
        window >= 1,
        end <= u64::MAX,
    ensures
        ({
            let full = windows_down_from(end, window, None);
            let cut = windows_down_from(end, window, Some(budget));
            &&& cut.len() == if budget < full.len() {
                budget
            } else {
                full.len()
            }
            &&& cut == full.take(cut.len() as int)
        }),
    decreases end,
{
    let full = windows_down_from(end, window, None);
    let cut = windows_down_from(end, window, Some(budget));
    if end > 0 && budget > 0 {
        let start = window_start(end, window);
        lemma_budget_takes_prefix((start - 1) as nat, window, (budget - 1) as nat);
        let first = BlockWindow { from_block: start as u64, to_block: end as u64 };
        let full_rest = windows_down_from((start - 1) as nat, window, None);
        let cut_rest = windows_down_from((start - 1) as nat, window, Some((budget - 1) as nat));
        assert(full =~= seq![first] + full_rest);
        assert(cut =~= seq![first] + cut_rest);
        assert(cut =~= full.take(cut.len() as int));
    } else {
        assert(cut =~= full.take(0));
    }
}

} // verus!
