//! Which brackets of a source belong together.
//!
//! A `[` and a later `]` are a pair when the bytes between them hold only
//! pairs. This module states that with a running count of brackets and
//! proves that pairs are unique, and that a balanced source leaves no
//! bracket without its partner.

use vstd::prelude::*;

verus! {

/// The byte `[`, which opens a loop.
pub const OPEN: u8 = 0x5B;

/// The byte `]`, which closes a loop.
pub const CLOSE: u8 = 0x5D;

/// What a byte adds to the count of open brackets.
pub open spec fn weight(byte: u8) -> int {
    if byte == OPEN {
        1
    } else if byte == CLOSE {
        -1
    } else {
        0
    }
}

/// Opening brackets minus closing brackets among `source[from..to]`.
pub open spec fn surplus(source: Seq<u8>, from: int, to: int) -> int
    decreases to - from,
{
    if to <= from {
        0
    } else {
        surplus(source, from, to - 1) + weight(source[to - 1])
    }
}

/// `source[from..to]` holds only pairs: it opens as often as it closes, and
/// no part of it that starts at `from` closes more than it has opened.
pub open spec fn closed_run(source: Seq<u8>, from: int, to: int) -> bool {
    &&& surplus(source, from, to) == 0
    &&& forall|k: int| from <= k <= to ==> surplus(source, from, k) >= 0
}

/// The `[` at `open` and the `]` at `close` are a pair.
pub open spec fn matched(source: Seq<u8>, open: int, close: int) -> bool {
    &&& 0 <= open < close < source.len()
    &&& source[open] == OPEN
    &&& source[close] == CLOSE
    &&& closed_run(source, open + 1, close)
}

/// The whole source holds only pairs.
pub open spec fn balanced(source: Seq<u8>) -> bool {
    closed_run(source, 0, source.len() as int)
}

/// The count over a range is the sum of the counts over its two parts.
pub proof fn lemma_surplus_split(source: Seq<u8>, from: int, mid: int, to: int)
    requires
        from <= mid <= to,
    ensures
        surplus(source, from, to) == surplus(source, from, mid) + surplus(source, mid, to),
    decreases to - mid,
{
    if mid < to {
        lemma_surplus_split(source, from, mid, to - 1);
    }
}

/// An opening bracket has at most one partner.
pub proof fn lemma_closer_unique(source: Seq<u8>, open: int, first: int, second: int)
    requires
        matched(source, open, first),
        matched(source, open, second),
    ensures
        first == second,
{
    if first < second {
        assert(surplus(source, open + 1, first + 1) == -1);
    } else if second < first {
        assert(surplus(source, open + 1, second + 1) == -1);
    }
}

/// A closing bracket has at most one partner.
pub proof fn lemma_opener_unique(source: Seq<u8>, first: int, second: int, close: int)
    requires
        matched(source, first, close),
        matched(source, second, close),
    ensures
        first == second,
{
    if first < second {
        lemma_count_before_pair(source, first + 1, second, close);
    } else if second < first {
        lemma_count_before_pair(source, second + 1, first, close);
    }
}

/// The count up to a pair's opening bracket is one less than the count up to
/// its closing bracket.
proof fn lemma_count_before_pair(source: Seq<u8>, from: int, open: int, close: int)
    requires
        from <= open,
        matched(source, open, close),
    ensures
        surplus(source, from, open) == surplus(source, from, close) - 1,
{
    lemma_surplus_split(source, from, open + 1, close);
    assert(surplus(source, from, open + 1) == surplus(source, from, open) + 1);
}

/// A run of pairs stays one when a byte that is no bracket follows it.
pub proof fn lemma_closed_run_plain(source: Seq<u8>, from: int, to: int)
    requires
        from <= to,
        closed_run(source, from, to),
        weight(source[to]) == 0,
    ensures
        closed_run(source, from, to + 1),
{
}

/// A run of pairs stays one when a pair follows it.
pub proof fn lemma_closed_run_pair(source: Seq<u8>, from: int, open: int, close: int)
    requires
        from <= open,
        closed_run(source, from, open),
        matched(source, open, close),
    ensures
        closed_run(source, from, close + 1),
{
    assert forall|k: int| from <= k <= close + 1 implies surplus(source, from, k) >= 0 by {
        if open < k <= close {
            lemma_surplus_split(source, from, open + 1, k);
        } else if k == close + 1 {
            lemma_surplus_split(source, from, open + 1, close);
        }
    }
    lemma_surplus_split(source, from, open + 1, close);
}

/// In a balanced source every opening bracket has a partner.
pub proof fn lemma_balanced_closer(source: Seq<u8>, open: int) -> (close: int)
    requires
        balanced(source),
        0 <= open < source.len(),
        source[open] == OPEN,
    ensures
        matched(source, open, close),
{
    lemma_surplus_split(source, 0, open + 1, source.len() as int);
    assert(surplus(source, 0, open + 1) == surplus(source, 0, open) + 1);
    lemma_first_dip(source, open + 1, open + 1)
}

proof fn lemma_first_dip(source: Seq<u8>, from: int, reached: int) -> (close: int)
    requires
        0 < from <= reached <= source.len(),
        source[from - 1] == OPEN,
        surplus(source, from, source.len() as int) < 0,
        forall|k: int| from <= k <= reached ==> surplus(source, from, k) >= 0,
    ensures
        matched(source, from - 1, close),
    decreases source.len() - reached,
{
    assert(surplus(source, from, reached) >= 0);
    if surplus(source, from, reached + 1) < 0 {
        assert(weight(source[reached]) == -1 && surplus(source, from, reached) == 0);
        reached
    } else {
        lemma_first_dip(source, from, reached + 1)
    }
}

/// In a balanced source every closing bracket has a partner.
pub proof fn lemma_balanced_opener(source: Seq<u8>, close: int) -> (open: int)
    requires
        balanced(source),
        0 <= close < source.len(),
        source[close] == CLOSE,
    ensures
        matched(source, open, close),
{
    assert(surplus(source, 0, close + 1) == surplus(source, 0, close) - 1);
    lemma_last_rise(source, close, close - 1)
}

proof fn lemma_last_rise(source: Seq<u8>, close: int, reached: int) -> (open: int)
    requires
        0 <= reached < close < source.len(),
        balanced(source),
        source[close] == CLOSE,
        forall|k: int| reached < k <= close ==> surplus(source, 0, k) >= surplus(source, 0, close),
    ensures
        matched(source, open, close),
    decreases reached,
{
    if surplus(source, 0, reached) < surplus(source, 0, close) {
        assert(surplus(source, 0, reached + 1) == surplus(source, 0, reached) + weight(
            source[reached],
        ));
        let from = reached + 1;
        assert forall|k: int| from <= k <= close implies surplus(source, from, k) >= 0 by {
            lemma_surplus_split(source, 0, from, k);
        }
        lemma_surplus_split(source, 0, from, close);
        reached
    } else {
        assert(surplus(source, 0, close + 1) == surplus(source, 0, close) - 1);
        lemma_last_rise(source, close, reached - 1)
    }
}

} // verus!
