//! Trimming of captured call stacks.
use vstd::prelude::*;

verus! {

/// Index of the first frame inside the given function.
pub open spec fn first_inside(symbols: Seq<u64>, function: u64) -> Option<int>
    decreases symbols.len(),
{
    if symbols.len() == 0 {
        None
    } else if symbols[0] == function {
        Some(0)
    } else {
        match first_inside(symbols.skip(1), function) {
            Some(i) => Some(i + 1),
            None => None,
        }
    }
}

/// The frames between the leaf function and the root function, both left out.
/// All frames if that is empty or the leaf is not on the stack.
pub open spec fn trimmed(
    frames: Seq<u64>,
    symbols: Seq<u64>,
    root: Option<u64>,
    leaf: u64,
) -> Seq<u64> {
    let end = match root {
        Some(root) => first_inside(symbols, root),
        None => None,
    };
    match (first_inside(symbols, leaf), end) {
        (Some(start), Some(end)) if start + 1 < end => frames.subrange(start + 1, end),
        (Some(start), None) if start + 1 < frames.len() => frames.skip(start + 1),
        _ => frames,
    }
}

fn position(symbols: &Vec<u64>, function: u64) -> (r: Option<usize>)
    ensures
        match r {
            Some(i) => first_inside(symbols@, function) == Some(i as int) && i < symbols@.len(),
            None => first_inside(symbols@, function) is None,
        },
{
    let mut i: usize = 0;
    assert(symbols@.skip(0) =~= symbols@);
    while i < symbols.len()
        invariant
            i <= symbols@.len(),
            first_inside(symbols@, function) == (match first_inside(
                symbols@.skip(i as int),
                function,
            ) {
                Some(k) => Some(k + i),
                None => None,
            }),
        decreases symbols@.len() - i,
    {
        if symbols[i] == function {
            return Some(i);
        }
        assert(symbols@.skip(i as int).skip(1) =~= symbols@.skip(i as int + 1));
        i = i + 1;
    }
    None
}

/// Trims a call stack to the frames between `leaf` and `root`. Each frame is
/// given with the address of the function that it lies in.
pub fn trim_frames(frame_ips: &Vec<u64>, symbols: &Vec<u64>, root: Option<u64>, leaf: u64) -> (r:
    Vec<u64>)
    requires
        symbols@.len() == frame_ips@.len(),
    ensures
        r@ == trimmed(frame_ips@, symbols@, root, leaf),
{
    let start: Option<usize> = position(symbols, leaf);
    let end: Option<usize> = match root {
        Some(root) => position(symbols, root),
        None => None,
    };
    let mut from: usize = 0;
    let mut to: usize = frame_ips.len();
    match (start, end) {
        (Some(start), Some(end)) => {
            if start + 1 < end {
                from = start + 1;
                to = end;
            }
        },
        (Some(start), None) => {
            if start + 1 < frame_ips.len() {
                from = start + 1;
            }
        },
        _ => {},
    }
    let mut out: Vec<u64> = Vec::new();
    let mut i: usize = from;
    while i < to
        invariant
            from <= i <= to <= frame_ips@.len(),
            out@ =~= frame_ips@.subrange(from as int, i as int),
        decreases to - i,
    {
        out.push(frame_ips[i]);
        i = i + 1;
    }
    assert(out@ =~= trimmed(frame_ips@, symbols@, root, leaf));
    out
}

/// Trimming keeps a contiguous part of the stack, and never an empty one of a
/// stack with frames.
pub proof fn law_trimming_keeps_a_contiguous_part(
    frames: Seq<u64>,
    symbols: Seq<u64>,
    root: Option<u64>,
    leaf: u64,
)
    requires
        frames.len() == symbols.len(),
    ensures
        frames.len() > 0 ==> trimmed(frames, symbols, root, leaf).len() > 0,
        exists|from: int, to: int|
            0 <= from <= to <= frames.len() && trimmed(frames, symbols, root, leaf)
                == #[trigger] frames.subrange(from, to),
{
    lemma_first_inside_in_range(symbols, leaf);
    if let Some(root) = root {
        lemma_first_inside_in_range(symbols, root);
    }
    let end = match root {
        Some(root) => first_inside(symbols, root),
        None => None,
    };
    match (first_inside(symbols, leaf), end) {
        (Some(start), Some(end)) if start + 1 < end => {},
        (Some(start), None) if start + 1 < frames.len() => {
            assert(frames.skip(start + 1) =~= frames.subrange(start + 1, frames.len() as int));
        },
        _ => {
            assert(frames =~= frames.subrange(0, frames.len() as int));
        },
    }
}

proof fn lemma_first_inside_in_range(symbols: Seq<u64>, function: u64)
    ensures
        first_inside(symbols, function) matches Some(i) ==> 0 <= i < symbols.len(),
    decreases symbols.len(),
{
    if symbols.len() > 0 {
        lemma_first_inside_in_range(symbols.skip(1), function);
    }
}

/// `at` is the first frame that lies in `function`.
pub open spec fn enters_at(symbols: Seq<u64>, function: u64, at: int) -> bool {
    &&& 0 <= at < symbols.len()
    &&& symbols[at] == function
    &&& forall|i: int| 0 <= i < at ==> symbols[i] != function
}

proof fn lemma_first_inside(symbols: Seq<u64>, function: u64)
    ensures
        first_inside(symbols, function) matches Some(at) ==> enters_at(symbols, function, at),
        first_inside(symbols, function) is None ==> !symbols.contains(function),
    decreases symbols.len(),
{
    if symbols.len() > 0 {
        let rest = symbols.skip(1);
        lemma_first_inside(rest, function);
        match first_inside(rest, function) {
            Some(at) if symbols[0] != function => {
                assert forall|i: int| 0 <= i < at + 1 implies symbols[i] != function by {
                    if i > 0 {
                        assert(symbols[i] == rest[i - 1]);
                    }
                }
            },
            None if symbols[0] != function => {
                assert forall|i: int| 0 <= i < symbols.len() implies symbols[i] != function by {
                    if i > 0 {
                        assert(symbols[i] == rest[i - 1]);
                    }
                }
            },
            _ => {},
        }
    }
}

/// A trimmed stack starts right after the first frame in the leaf function and
/// ends right before the first frame in the root function, if frames lie
/// between the two.
pub proof fn law_trimming_keeps_the_frames_between_leaf_and_root(
    frames: Seq<u64>,
    symbols: Seq<u64>,
    root: u64,
    leaf: u64,
    start: int,
    end: int,
)
    requires
        frames.len() == symbols.len(),
        enters_at(symbols, leaf, start),
        enters_at(symbols, root, end),
    ensures
        start + 1 < end ==> {
            let kept = trimmed(frames, symbols, Some(root), leaf);
            &&& kept.len() == end - start - 1
            &&& forall|i: int| 0 <= i < kept.len() ==> kept[i] == frames[start + 1 + i]
        },
        start + 1 >= end ==> trimmed(frames, symbols, Some(root), leaf) == frames,
{
    lemma_first_inside(symbols, leaf);
    lemma_first_inside(symbols, root);
}

/// Without a root function on the stack, a trimmed stack holds all frames after
/// the first one in the leaf function, if there are any.
pub proof fn law_trimming_without_a_root_keeps_the_frames_after_the_leaf(
    frames: Seq<u64>,
    symbols: Seq<u64>,
    root: Option<u64>,
    leaf: u64,
    start: int,
)
    requires
        frames.len() == symbols.len(),
        enters_at(symbols, leaf, start),
        root matches Some(function) ==> !symbols.contains(function),
    ensures
        start + 1 < frames.len() ==> {
            let kept = trimmed(frames, symbols, root, leaf);
            &&& kept.len() == frames.len() - start - 1
            &&& forall|i: int| 0 <= i < kept.len() ==> kept[i] == frames[start + 1 + i]
        },
        start + 1 == frames.len() ==> trimmed(frames, symbols, root, leaf) == frames,
{
    lemma_first_inside(symbols, leaf);
    if let Some(function) = root {
        lemma_first_inside(symbols, function);
    }
}

/// A stack without the leaf function is kept whole.
pub proof fn law_a_stack_without_the_leaf_is_kept(
    frames: Seq<u64>,
    symbols: Seq<u64>,
    root: Option<u64>,
    leaf: u64,
)
    requires
        frames.len() == symbols.len(),
        !symbols.contains(leaf),
    ensures
        trimmed(frames, symbols, root, leaf) == frames,
{
    lemma_first_inside(symbols, leaf);
}

} // verus!
