//! From raw source bytes to a program: every byte that is no instruction
//! is dropped, and the brackets that remain are checked for balance.

use crate::program::{
    is_instruction, is_program, is_simple, nesting, DECREMENT, INCREMENT, INPUT, LOOP_CLOSE, LOOP_OPEN,
    MOVE_LEFT, MOVE_RIGHT, OUTPUT,
};
use vstd::prelude::*;

verus! {

/// The deepest nesting of loops that the loader accepts.
pub const MAX_NESTING_LEVEL: usize = 10_000;

/// Why a source was rejected.
#[derive(Clone, Copy, Debug, PartialEq, Eq, Structural)]
pub enum SyntaxError {
    /// The source holds no instruction.
    Empty,
    /// A `]` stands where no loop is open.
    UnmatchedClose,
    /// A `[` is never closed.
    UnmatchedOpen,
    /// Loops are nested deeper than [`MAX_NESTING_LEVEL`].
    NestingTooDeep,
}

impl SyntaxError {
    /// The text that describes the error.
    pub open spec fn text(self) -> Seq<char> {
        match self {
            SyntaxError::Empty => "Source empty"@,
            SyntaxError::UnmatchedClose => "Unmatched closing loop statement"@,
            SyntaxError::UnmatchedOpen => "Uneven count of opening and closing loop brackets"@,
            SyntaxError::NestingTooDeep => "Loop nesting too deep."@,
        }
    }

    /// The text that describes the error.
    pub fn message(&self) -> (s: &'static str)
        ensures
            s@ == self.text(),
    {
        match self {
            SyntaxError::Empty => "Source empty",
            SyntaxError::UnmatchedClose => "Unmatched closing loop statement",
            SyntaxError::UnmatchedOpen => "Uneven count of opening and closing loop brackets",
            SyntaxError::NestingTooDeep => "Loop nesting too deep.",
        }
    }
}

/// The predicate that keeps instructions.
pub open spec fn keeps_instructions() -> spec_fn(u8) -> bool {
    |b: u8| is_instruction(b)
}

/// The instructions of `src` in their order, with every other byte left
/// out.
pub open spec fn instructions(src: Seq<u8>) -> Seq<u8> {
    src.filter(keeps_instructions())
}

/// The instruction at `k` takes the nesting level below zero or above
/// [`MAX_NESTING_LEVEL`].
pub open spec fn violation(code: Seq<u8>, k: int) -> bool {
    &&& 0 <= k < code.len()
    &&& (nesting(code, k + 1) < 0 || nesting(code, k + 1) > MAX_NESTING_LEVEL)
}

/// `k` is the first place at which the nesting level leaves its range.
pub open spec fn first_violation(code: Seq<u8>, k: int) -> bool {
    &&& violation(code, k)
    &&& forall|j: int| 0 <= j < k ==> !violation(code, j)
}

/// What loading `src` gives. The first bracket that takes the nesting
/// level out of its range decides the error; without one, a source with no
/// instruction is empty, one that ends inside a loop has an unmatched
/// `[`, and any other is accepted as its instructions.
pub open spec fn parse_outcome(src: Seq<u8>) -> Result<Seq<u8>, SyntaxError> {
    let code = instructions(src);
    if exists|k: int| first_violation(code, k) {
        let k = choose|k: int| first_violation(code, k);
        if nesting(code, k + 1) < 0 {
            Err(SyntaxError::UnmatchedClose)
        } else {
            Err(SyntaxError::NestingTooDeep)
        }
    } else if code.len() == 0 {
        Err(SyntaxError::Empty)
    } else if nesting(code, code.len() as int) != 0 {
        Err(SyntaxError::UnmatchedOpen)
    } else {
        Ok(code)
    }
}

/// The nesting level after `k` instructions depends on those `k` alone.
proof fn lemma_nesting_prefix(a: Seq<u8>, b: Seq<u8>, k: int)
    requires
        0 <= k <= a.len() <= b.len(),
        forall|j: int| 0 <= j < a.len() ==> a[j] == b[j],
    ensures
        nesting(a, k) == nesting(b, k),
    decreases k,
{
    if k > 0 {
        lemma_nesting_prefix(a, b, k - 1);
    }
}

/// Taking one more byte of the source adds it to the instructions if it
/// is one, and changes nothing if not.
proof fn lemma_instructions_step(src: Seq<u8>, i: int)
    requires
        0 <= i < src.len(),
    ensures
        instructions(src.take(i + 1)) == if is_instruction(src[i]) {
            instructions(src.take(i)).push(src[i])
        } else {
            instructions(src.take(i))
        },
{
    reveal(Seq::filter);
    assert(src.take(i + 1).drop_last() =~= src.take(i));
}

/// The instructions of a part of the source that starts at its beginning
/// are the first instructions of the whole.
proof fn lemma_instructions_prefix(src: Seq<u8>, i: int)
    requires
        0 <= i <= src.len(),
    ensures
        instructions(src.take(i)).len() <= instructions(src).len(),
        forall|j: int|
            0 <= j < instructions(src.take(i)).len() ==> instructions(src.take(i))[j]
                == instructions(src)[j],
{
    assert(src =~= src.take(i) + src.skip(i));
    Seq::filter_distributes_over_add(src.take(i), src.skip(i), keeps_instructions());
}

/// A violation that is the first within the first instructions of a source
/// is the first of the whole, and decides what loading gives.
proof fn lemma_early_violation(src: Seq<u8>, i: int, k: int)
    requires
        0 <= i <= src.len(),
        first_violation(instructions(src.take(i)), k),
    ensures
        parse_outcome(src) == if nesting(instructions(src.take(i)), k + 1) < 0 {
            Err::<Seq<u8>, SyntaxError>(SyntaxError::UnmatchedClose)
        } else {
            Err::<Seq<u8>, SyntaxError>(SyntaxError::NestingTooDeep)
        },
{
    let part = instructions(src.take(i));
    let code = instructions(src);
    lemma_instructions_prefix(src, i);
    assert forall|j: int| 0 <= j <= k + 1 implies nesting(part, j) == nesting(code, j) by {
        lemma_nesting_prefix(part, code, j);
    }
    assert(first_violation(code, k)) by {
        assert forall|j: int| 0 <= j < k implies !violation(code, j) by {
            assert(!violation(part, j));
        }
    }
    let chosen = choose|k: int| first_violation(code, k);
    assert(chosen == k) by {
        if chosen < k {
            assert(!violation(code, chosen));
        } else if k < chosen {
            assert(!violation(code, k));
        }
    }
}

/// The predicate that keeps the six instructions that are not brackets.
pub open spec fn keeps_simple() -> spec_fn(u8) -> bool {
    |b: u8| is_simple(b)
}

/// How many bytes of `src` are one of the six instructions that are not
/// brackets.
pub open spec fn simple_count(src: Seq<u8>) -> nat {
    src.filter(keeps_simple()).len()
}

/// Neither `[` nor `]` occurs in `src`.
pub open spec fn bracket_free(src: Seq<u8>) -> bool {
    forall|i: int| 0 <= i < src.len() ==> src[i] != LOOP_OPEN && src[i] != LOOP_CLOSE
}

/// Without brackets the instructions are the simple instructions.
proof fn lemma_bracket_free_instructions(src: Seq<u8>)
    requires
        bracket_free(src),
    ensures
        instructions(src) == src.filter(keeps_simple()),
    decreases src.len(),
{
    reveal(Seq::filter);
    if src.len() > 0 {
        lemma_bracket_free_instructions(src.drop_last());
    }
}

/// Without brackets the nesting level is zero throughout.
proof fn lemma_bracket_free_nesting(code: Seq<u8>, k: int)
    requires
        bracket_free(code),
        0 <= k <= code.len(),
    ensures
        nesting(code, k) == 0,
    decreases k,
{
    if k > 0 {
        lemma_bracket_free_nesting(code, k - 1);
    }
}

/// A source without brackets is rejected as empty if it holds no simple
/// instruction; otherwise it loads, and the program has as many
/// instructions as the source has bytes that are simple instructions.
pub proof fn lemma_bracket_free_source(src: Seq<u8>)
    requires
        bracket_free(src),
    ensures
        instructions(src).len() == simple_count(src),
        parse_outcome(src) == if simple_count(src) == 0 {
            Err::<Seq<u8>, SyntaxError>(SyntaxError::Empty)
        } else {
            Ok::<Seq<u8>, SyntaxError>(instructions(src))
        },
{
    let code = instructions(src);
    lemma_bracket_free_instructions(src);
    assert(bracket_free(code)) by {
        assert forall|i: int| 0 <= i < code.len() implies code[i] != LOOP_OPEN && code[i]
            != LOOP_CLOSE by {
            src.lemma_filter_pred(keeps_simple(), i);
        }
    }
    assert forall|k: int| !first_violation(code, k) by {
        if 0 <= k < code.len() {
            lemma_bracket_free_nesting(code, k + 1);
        }
    }
    lemma_bracket_free_nesting(code, code.len() as int);
}

/// Keeps the instructions of `file_content` and checks their brackets in
/// one pass from left to right.
pub fn parse_source_code(file_content: Vec<u8>) -> (r: Result<Vec<u8>, SyntaxError>)
    ensures
        match r {
            Ok(code) => {
                &&& parse_outcome(file_content@) == Ok::<Seq<u8>, SyntaxError>(code@)
                &&& is_program(code@)
                &&& forall|k: int|
                    0 <= k <= code.len() ==> nesting(code@, k) <= MAX_NESTING_LEVEL
            },
            Err(e) => parse_outcome(file_content@) == Err::<Seq<u8>, SyntaxError>(e),
        },
{
    let mut code: Vec<u8> = Vec::with_capacity(file_content.len());
    let mut level: usize = 0;
    let mut i: usize = 0;
    while i < file_content.len()
        invariant
            0 <= i <= file_content.len(),
            code@ == instructions(file_content@.take(i as int)),
            level == nesting(code@, code.len() as int),
            level <= MAX_NESTING_LEVEL,
            forall|j: int| 0 <= j < code.len() ==> !violation(code@, j),
        decreases file_content.len() - i,
    {
        let b: u8 = file_content[i];
        let ghost before = code@;
        let ghost after = instructions(file_content@.take(i + 1));
        proof {
            lemma_instructions_step(file_content@, i as int);
            if is_instruction(b) {
                assert forall|j: int| 0 <= j <= before.len() implies nesting(before, j)
                    == nesting(after, j) by {
                    lemma_nesting_prefix(before, after, j);
                }
                assert forall|j: int| 0 <= j < before.len() implies !violation(after, j) by {
                    assert(!violation(before, j));
                }
            }
        }
        if b == LOOP_OPEN {
            level += 1;
            if level > MAX_NESTING_LEVEL {
                proof {
                    assert(first_violation(after, before.len() as int));
                    lemma_early_violation(file_content@, i + 1, before.len() as int);
                }
                return Err(SyntaxError::NestingTooDeep);
            }
            code.push(b);
        } else if b == LOOP_CLOSE {
            if level == 0 {
                proof {
                    assert(first_violation(after, before.len() as int));
                    lemma_early_violation(file_content@, i + 1, before.len() as int);
                }
                return Err(SyntaxError::UnmatchedClose);
            }
            level -= 1;
            code.push(b);
        } else if b == MOVE_LEFT || b == MOVE_RIGHT || b == INCREMENT || b == DECREMENT || b == OUTPUT
            || b == INPUT {
            code.push(b);
        }
        i += 1;
    }
    proof {
        assert(file_content@.take(i as int) =~= file_content@);
        assert(!exists|k: int| first_violation(code@, k));
        assert(nesting(code@, 0) == 0);
        assert forall|j: int| 0 <= j < code.len() implies is_instruction(#[trigger] code@[j]) by {
            file_content@.lemma_filter_pred(keeps_instructions(), j);
        }
        assert forall|j: int| 0 <= j <= code.len() implies 0 <= #[trigger] nesting(code@, j)
            <= MAX_NESTING_LEVEL by {
            if j > 0 {
                assert(!violation(code@, j - 1));
            }
        }
    }
    if code.len() == 0 {
        return Err(SyntaxError::Empty);
    }
    if level != 0 {
        return Err(SyntaxError::UnmatchedOpen);
    }
    Ok(code)
}

} // verus!
