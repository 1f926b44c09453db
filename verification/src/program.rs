//! The model of a program: the instruction alphabet, nesting levels,
//! balance, and which bracket is the partner of which.

use vstd::prelude::*;

verus! {

/// `+`: add one to the current cell.
pub const INCREMENT: u8 = 43;

/// `-`: subtract one from the current cell.
pub const DECREMENT: u8 = 45;

/// `>`: move the data cursor one cell to the right.
pub const MOVE_RIGHT: u8 = 62;

/// `<`: move the data cursor one cell to the left.
pub const MOVE_LEFT: u8 = 60;

/// `.`: write the current cell to the output.
pub const OUTPUT: u8 = 46;

/// `,`: read a byte into the current cell.
pub const INPUT: u8 = 44;

/// `[`: enter a loop, or skip it when the current cell is zero.
pub const LOOP_OPEN: u8 = 91;

/// `]`: leave a loop, or repeat it when the current cell is not zero.
pub const LOOP_CLOSE: u8 = 93;

/// Whether `b` is one of the six instructions that are not brackets.
pub open spec fn is_simple(b: u8) -> bool {
    b == INCREMENT || b == DECREMENT || b == MOVE_RIGHT || b == MOVE_LEFT || b == OUTPUT || b
        == INPUT
}

/// Whether `b` is one of the eight instructions.
pub open spec fn is_instruction(b: u8) -> bool {
    is_simple(b) || b == LOOP_OPEN || b == LOOP_CLOSE
}

/// By how much the instruction `b` changes the nesting level.
pub open spec fn delta(b: u8) -> int {
    if b == LOOP_OPEN {
        1
    } else if b == LOOP_CLOSE {
        -1
    } else {
        0
    }
}

/// The nesting level after the first `i` instructions of `code`: the number
/// of `[` among them minus the number of `]`.
pub open spec fn nesting(code: Seq<u8>, i: int) -> int
    recommends
        0 <= i <= code.len(),
    decreases i,
{
    if i <= 0 {
        0
    } else {
        nesting(code, i - 1) + delta(code[i - 1])
    }
}

/// Every `]` closes an earlier `[`, and no `[` is left open at the end.
pub open spec fn balanced(code: Seq<u8>) -> bool {
    &&& forall|i: int| 0 <= i <= code.len() ==> nesting(code, i) >= 0
    &&& nesting(code, code.len() as int) == 0
}

/// What the engine accepts: at least one instruction, nothing but
/// instructions, and balanced brackets.
pub open spec fn is_program(code: Seq<u8>) -> bool {
    &&& code.len() >= 1
    &&& forall|i: int| 0 <= i < code.len() ==> is_instruction(#[trigger] code[i])
    &&& balanced(code)
}

/// The brackets at `open` and `close` belong together: the level after
/// `close` is the level before `open`, and it stays above that in between.
pub open spec fn is_match(code: Seq<u8>, open: int, close: int) -> bool {
    &&& 0 <= open < close < code.len()
    &&& code[open] == LOOP_OPEN
    &&& code[close] == LOOP_CLOSE
    &&& nesting(code, close + 1) == nesting(code, open)
    &&& forall|k: int| open < k <= close ==> nesting(code, k) > nesting(code, open)
}

/// The index of the `]` that closes the `[` at `open`.
pub open spec fn loop_end(code: Seq<u8>, open: int) -> int {
    choose|close: int| is_match(code, open, close)
}

/// The index of the `[` that the `]` at `close` closes.
pub open spec fn loop_start(code: Seq<u8>, close: int) -> int {
    choose|open: int| is_match(code, open, close)
}

/// A `[` has at most one partner.
pub proof fn lemma_loop_end_unique(code: Seq<u8>, open: int, c1: int, c2: int)
    requires
        is_match(code, open, c1),
        is_match(code, open, c2),
    ensures
        c1 == c2,
{
    if c1 < c2 {
        assert(nesting(code, c1 + 1) > nesting(code, open));
    } else if c2 < c1 {
        assert(nesting(code, c2 + 1) > nesting(code, open));
    }
}

/// A `]` has at most one partner.
pub proof fn lemma_loop_start_unique(code: Seq<u8>, o1: int, o2: int, close: int)
    requires
        is_match(code, o1, close),
        is_match(code, o2, close),
    ensures
        o1 == o2,
{
    if o1 < o2 {
        // o2 lies inside the pair (o1, close), so the level before it is
        // above the level before o1, yet both equal the level after close.
        assert(nesting(code, o2) > nesting(code, o1));
    } else if o2 < o1 {
        assert(nesting(code, o1) > nesting(code, o2));
    }
}

/// The level cannot fall from above `floor` to `floor` or below without
/// a `]` that brings it to exactly `floor`: the first such place after
/// `from`.
proof fn lemma_first_return(code: Seq<u8>, from: int, to: int, floor: int) -> (k: int)
    requires
        0 <= from < to <= code.len(),
        nesting(code, from) > floor,
        nesting(code, to) <= floor,
    ensures
        from <= k < to,
        code[k] == LOOP_CLOSE,
        nesting(code, k + 1) == floor,
        forall|j: int| from <= j <= k ==> nesting(code, j) > floor,
    decreases to - from,
{
    if nesting(code, from + 1) <= floor {
        from
    } else {
        lemma_first_return(code, from + 1, to, floor)
    }
}

/// The level cannot have risen from `floor` or below to above `floor`
/// without a `[` that leaves exactly `floor`: the last such place before
/// `to`.
proof fn lemma_last_departure(code: Seq<u8>, from: int, to: int, floor: int) -> (k: int)
    requires
        0 <= from < to <= code.len(),
        nesting(code, from) <= floor,
        nesting(code, to) > floor,
    ensures
        from <= k < to,
        code[k] == LOOP_OPEN,
        nesting(code, k) == floor,
        forall|j: int| k < j <= to ==> nesting(code, j) > floor,
    decreases to - from,
{
    if nesting(code, to - 1) <= floor {
        to - 1
    } else {
        lemma_last_departure(code, from, to - 1, floor)
    }
}

/// In balanced code every `[` has a partner, and `loop_end` is it.
pub proof fn lemma_loop_end(code: Seq<u8>, open: int)
    requires
        balanced(code),
        0 <= open < code.len(),
        code[open] == LOOP_OPEN,
    ensures
        is_match(code, open, loop_end(code, open)),
{
    let floor = nesting(code, open);
    assert(nesting(code, open + 1) == floor + 1);
    let k = lemma_first_return(code, open + 1, code.len() as int, floor);
    assert(is_match(code, open, k));
}

/// In balanced code every `]` has a partner, and `loop_start` is it.
pub proof fn lemma_loop_start(code: Seq<u8>, close: int)
    requires
        balanced(code),
        0 <= close < code.len(),
        code[close] == LOOP_CLOSE,
    ensures
        is_match(code, loop_start(code, close), close),
{
    let floor = nesting(code, close + 1);
    assert(nesting(code, close) == floor + 1);
    assert(nesting(code, 0) == 0);
    let k = lemma_last_departure(code, 0, close, floor);
    assert(is_match(code, k, close));
}

/// Matching by recursive descent. A block is a run of simple instructions
/// and of loops, and a loop is `[`, a block, `]`. This is the index at
/// which the block that starts at `i` ends: that of the `]` which closes
/// the loop around it, or the length of `code` where no loop is around it.
pub open spec fn block_end(code: Seq<u8>, i: int) -> int
    decreases code.len() - i,
{
    if i < 0 || i >= code.len() {
        code.len() as int
    } else if code[i] == LOOP_CLOSE {
        i
    } else if code[i] == LOOP_OPEN {
        let close = block_end(code, i + 1);
        if i < close < code.len() {
            block_end(code, close + 1)
        } else {
            code.len() as int
        }
    } else {
        block_end(code, i + 1)
    }
}

/// The block that starts at `i` ends at the first place from `i` on where
/// the nesting level falls below the level at `i`.
proof fn lemma_block_end(code: Seq<u8>, i: int)
    requires
        0 <= i <= code.len(),
    ensures
        i <= block_end(code, i) <= code.len(),
        forall|k: int| i <= k <= block_end(code, i) ==> nesting(code, k) >= nesting(code, i),
        block_end(code, i) < code.len() ==> {
            &&& code[block_end(code, i)] == LOOP_CLOSE
            &&& nesting(code, block_end(code, i) + 1) == nesting(code, i) - 1
        },
    decreases code.len() - i,
{
    if i < code.len() {
        if code[i] == LOOP_CLOSE {
        } else if code[i] == LOOP_OPEN {
            lemma_block_end(code, i + 1);
            let close = block_end(code, i + 1);
            if close < code.len() {
                lemma_block_end(code, close + 1);
            }
        } else {
            lemma_block_end(code, i + 1);
        }
    }
}

/// Matching by nesting level and matching by recursive descent pair the
/// same brackets: `close` is the partner of the `[` at `open` exactly if
/// the block behind that `[` ends at `close`, within the code.
pub proof fn lemma_match_is_block_end(code: Seq<u8>, open: int, close: int)
    requires
        0 <= open < code.len(),
        code[open] == LOOP_OPEN,
    ensures
        is_match(code, open, close) <==> (close == block_end(code, open + 1) && close
            < code.len()),
{
    lemma_block_end(code, open + 1);
    let end = block_end(code, open + 1);
    if end < code.len() {
        assert(is_match(code, open, end));
        if is_match(code, open, close) {
            lemma_loop_end_unique(code, open, close, end);
        }
    } else {
        if is_match(code, open, close) {
            assert(nesting(code, close + 1) >= nesting(code, open + 1));
        }
    }
}

/// In a balanced program both jumps go where recursive descent puts the
/// partner: the forward jump from a `[` to the end of the block behind it,
/// the backward jump from a `]` to the `[` whose block ends at that `]`.
pub proof fn lemma_jumps_agree_with_descent(code: Seq<u8>, i: int)
    requires
        balanced(code),
        0 <= i < code.len(),
    ensures
        code[i] == LOOP_OPEN ==> loop_end(code, i) == block_end(code, i + 1) && loop_end(code, i)
            < code.len(),
        code[i] == LOOP_CLOSE ==> {
            &&& 0 <= loop_start(code, i) < i
            &&& code[loop_start(code, i)] == LOOP_OPEN
            &&& block_end(code, loop_start(code, i) + 1) == i
        },
{
    if code[i] == LOOP_OPEN {
        lemma_loop_end(code, i);
        lemma_match_is_block_end(code, i, loop_end(code, i));
    }
    if code[i] == LOOP_CLOSE {
        lemma_loop_start(code, i);
        lemma_match_is_block_end(code, loop_start(code, i), i);
    }
}

/// Finds the `]` that closes the `[` at `open` by scanning forward from the
/// instruction after it with a counter of the loops entered on the way.
pub fn find_loop_end(code: &Vec<u8>, open: usize) -> (close: usize)
    requires
        balanced(code@),
        open < code.len(),
        code[open as int] == LOOP_OPEN,
    ensures
        is_match(code@, open as int, close as int),
        close == loop_end(code@, open as int),
{
    let ghost floor = nesting(code@, open as int);
    let mut depth: usize = 0;
    let mut i: usize = open + 1;
    loop
        invariant
            balanced(code@),
            open < i <= code.len(),
            code[open as int] == LOOP_OPEN,
            floor == nesting(code@, open as int),
            depth == nesting(code@, i as int) - floor - 1,
            depth <= i - open - 1,
            forall|k: int| open < k <= i ==> nesting(code@, k) > floor,
        decreases code.len() - i,
    {
        assert(i < code.len());
        let b: u8 = code[i];
        if b == LOOP_CLOSE {
            if depth == 0 {
                proof {
                    lemma_loop_end(code@, open as int);
                    lemma_loop_end_unique(
                        code@,
                        open as int,
                        i as int,
                        loop_end(code@, open as int),
                    );
                }
                return i;
            }
            depth -= 1;
        } else if b == LOOP_OPEN {
            depth += 1;
        }
        i += 1;
    }
}

/// Finds the `[` that the `]` at `close` closes by scanning backward from
/// the instruction before it with a counter of the loops passed on the way.
pub fn find_loop_start(code: &Vec<u8>, close: usize) -> (open: usize)
    requires
        balanced(code@),
        close < code.len(),
        code[close as int] == LOOP_CLOSE,
    ensures
        is_match(code@, open as int, close as int),
        open == loop_start(code@, close as int),
{
    let ghost floor = nesting(code@, close + 1);
    let mut depth: usize = 0;
    let mut i: usize = close;
    loop
        invariant
            balanced(code@),
            0 <= i <= close < code.len(),
            code[close as int] == LOOP_CLOSE,
            floor == nesting(code@, close + 1),
            depth == nesting(code@, i as int) - floor - 1,
            depth <= close - i,
            forall|k: int| i <= k <= close ==> nesting(code@, k) > floor,
        decreases i,
    {
        assert(i > 0) by {
            assert(nesting(code@, 0) == 0);
        }
        i -= 1;
        let b: u8 = code[i];
        if b == LOOP_OPEN {
            if depth == 0 {
                proof {
                    lemma_loop_start(code@, close as int);
                    lemma_loop_start_unique(
                        code@,
                        i as int,
                        loop_start(code@, close as int),
                        close as int,
                    );
                }
                return i;
            }
            depth -= 1;
        } else if b == LOOP_CLOSE {
            depth += 1;
        }
    }
}

} // verus!
