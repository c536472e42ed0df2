//! Segments that an earlier process left behind.
use crate::text::{digits_value, is_digit, number_of, parse_number, without_plus};
use crate::writer::{decimal, digit, ClosedSegment, WriterError};
use std::collections::VecDeque;
use vstd::prelude::*;
use vstd::string::{StrSliceExecFns, StringExecFns};

verus! {

/// The file name `{stem}.{index}{suffix}`.
pub open spec fn numbered_name(stem: Seq<char>, index: u32, suffix: Seq<char>) -> Seq<char> {
    stem + "."@ + decimal(index as nat) + suffix
}

/// The file belongs to the sealed segment `index`: it is the segment itself or
/// its compressed copy.
pub open spec fn is_sealed_file(stem: Seq<char>, index: u32, name: Seq<char>) -> bool {
    name == numbered_name(stem, index, ".bin"@) || name == numbered_name(stem, index, ".bin.gz"@)
}

/// The file is a segment that was being written.
pub open spec fn is_active_file(stem: Seq<char>, name: Seq<char>) -> bool {
    exists|index: u32| name == #[trigger] numbered_name(stem, index, ".bin.active"@)
}

/// Some of the first `n` files belongs to the sealed segment `index`.
pub open spec fn holds_segment(
    stem: Seq<char>,
    files: Seq<(String, u64)>,
    n: int,
    index: u32,
) -> bool {
    exists|i: int| 0 <= i < n && is_sealed_file(stem, index, (#[trigger] files[i]).0@)
}

/// The bytes of the sealed segment `index` in the first `n` files.
pub open spec fn segment_bytes(
    stem: Seq<char>,
    files: Seq<(String, u64)>,
    n: int,
    index: u32,
) -> nat
    decreases n,
{
    if n <= 0 {
        0
    } else {
        segment_bytes(stem, files, n - 1, index) + if is_sealed_file(
            stem,
            index,
            files[n - 1].0@,
        ) {
            files[n - 1].1 as nat
        } else {
            0
        }
    }
}

/// The size that is counted for `bytes`.
pub open spec fn counted_size(bytes: nat) -> u64 {
    if bytes <= u64::MAX {
        bytes as u64
    } else {
        u64::MAX
    }
}

/// The names of the first `n` files that are active segments, in order.
pub open spec fn active_files(stem: Seq<char>, files: Seq<(String, u64)>, n: int) -> Seq<Seq<char>>
    decreases n,
{
    if n <= 0 {
        seq![]
    } else {
        let before = active_files(stem, files, n - 1);
        if is_active_file(stem, files[n - 1].0@) {
            before.push(files[n - 1].0@)
        } else {
            before
        }
    }
}

/// `closed` lists the sealed segments in the first `n` files, each once, by
/// ascending index and with the bytes of all its files.
pub open spec fn lists_segments(
    closed: Seq<ClosedSegment>,
    stem: Seq<char>,
    files: Seq<(String, u64)>,
    n: int,
) -> bool {
    &&& forall|a: int, b: int|
        0 <= a < b < closed.len() ==> (#[trigger] closed[a]).0 < (#[trigger] closed[b]).0
    &&& forall|a: int|
        0 <= a < closed.len() ==> holds_segment(stem, files, n, (#[trigger] closed[a]).0)
            && closed[a].1 == counted_size(segment_bytes(stem, files, n, closed[a].0))
    &&& forall|index: u32| #[trigger]
        holds_segment(stem, files, n, index) ==> exists|a: int|
            0 <= a < closed.len() && (#[trigger] closed[a]).0 == index
}

/// What a writer takes over from an earlier process.
pub struct Discovered {
    /// Sealed segments with their sizes, oldest first.
    pub closed: VecDeque<ClosedSegment>,
    /// The index of the first segment to write.
    pub first_index: u32,
    /// Files of segments that were never sealed; nobody can use them.
    pub stale: Vec<String>,
}

proof fn lemma_decimal_reads_back(n: nat)
    ensures
        decimal(n).len() > 0,
        forall|i: int| 0 <= i < decimal(n).len() ==> is_digit(#[trigger] decimal(n)[i]),
        digits_value(decimal(n)) == n,
    decreases n,
{
    if n < 10 {
        assert(decimal(n) =~= seq![digit(n)]);
        assert(decimal(n).drop_last() =~= Seq::<char>::empty());
        assert(digits_value(decimal(n).drop_last()) == 0);
    } else {
        lemma_decimal_reads_back(n / 10);
        assert(decimal(n).drop_last() =~= decimal(n / 10));
        assert(decimal(n).last() == digit(n % 10));
    }
}

proof fn lemma_number_of_decimal(index: u32)
    ensures
        number_of(decimal(index as nat)) == Some(index as u64),
{
    lemma_decimal_reads_back(index as nat);
    assert(is_digit(decimal(index as nat)[0]));
    assert(without_plus(decimal(index as nat)) == decimal(index as nat));
}

proof fn lemma_number_in_name(stem: Seq<char>, index: u32, suffix: Seq<char>)
    ensures
        numbered_name(stem, index, suffix).len() > stem.len() + 1 + suffix.len(),
        numbered_name(stem, index, suffix).subrange(
            stem.len() as int + 1,
            numbered_name(stem, index, suffix).len() - suffix.len(),
        ) == decimal(index as nat),
{
    reveal_strlit(".");
    lemma_decimal_reads_back(index as nat);
    let name = numbered_name(stem, index, suffix);
    assert(name.subrange(stem.len() as int + 1, name.len() - suffix.len()) =~= decimal(index as nat));
}

proof fn lemma_sealed_index_is_unique(stem: Seq<char>, a: u32, b: u32, name: Seq<char>)
    requires
        is_sealed_file(stem, a, name),
        is_sealed_file(stem, b, name),
    ensures
        a == b,
{
    reveal_strlit(".bin");
    reveal_strlit(".bin.gz");
    let suffix = if name.last() == 'n' {
        ".bin"@
    } else {
        ".bin.gz"@
    };
    assert(numbered_name(stem, a, ".bin"@).last() == 'n');
    assert(numbered_name(stem, a, ".bin.gz"@).last() == 'z');
    assert(numbered_name(stem, b, ".bin"@).last() == 'n');
    assert(numbered_name(stem, b, ".bin.gz"@).last() == 'z');
    assert(name == numbered_name(stem, a, suffix));
    assert(name == numbered_name(stem, b, suffix));
    if a != b {
        crate::writer::law_segment_names_are_distinct(stem, a, b, suffix);
    }
}

fn numbered_file_name(stem: &str, index: u32, suffix: &str) -> (r: String)
    ensures
        r@ == numbered_name(stem@, index, suffix@),
{
    let number = crate::writer::decimal_string(index as u64);
    stem.to_owned().concat(".").concat(number.as_str()).concat(suffix)
}

/// The file name of the compressed copy of a sealed segment:
/// `{stem}.{index}.bin.gz`.
pub fn compressed_file_name(stem: &str, index: u32) -> (r: String)
    ensures
        r@ == numbered_name(stem@, index, ".bin.gz"@),
{
    numbered_file_name(stem, index, ".bin.gz")
}

fn index_in_name(stem: &str, suffix: &str, name: &String) -> (r: Option<u32>)
    ensures
        match r {
            Some(index) => name@ == numbered_name(stem@, index, suffix@),
            None => forall|index: u32| name@ != #[trigger] numbered_name(stem@, index, suffix@),
        },
{
    proof {
        assert forall|index: u32| name@ == #[trigger] numbered_name(
            stem@,
            index,
            suffix@,
        ) implies name@.len() > stem@.len() + 1 + suffix@.len() && number_of(
            name@.subrange(stem@.len() as int + 1, name@.len() - suffix@.len()),
        ) == Some(index as u64) by {
            lemma_number_in_name(stem@, index, suffix@);
            lemma_number_of_decimal(index);
        }
    }
    let text = name.as_str();
    let length: usize = text.unicode_len();
    let suffix_length: usize = suffix.unicode_len();
    let stem_length: usize = stem.unicode_len();
    if length < suffix_length || length - suffix_length <= stem_length {
        return None;
    }
    match parse_number(text, stem_length + 1, length - suffix_length) {
        Some(number) => {
            if number > 0xffff_ffff {
                return None;
            }
            let index = number as u32;
            let expected = numbered_file_name(stem, index, suffix);
            if expected == *name {
                Some(index)
            } else {
                None
            }
        },
        None => None,
    }
}

/// The sealed segment that the file belongs to, if it belongs to one.
pub fn sealed_index(stem: &str, name: &String) -> (r: Option<u32>)
    ensures
        match r {
            Some(index) => is_sealed_file(stem@, index, name@),
            None => forall|index: u32| !#[trigger] is_sealed_file(stem@, index, name@),
        },
{
    match index_in_name(stem, ".bin", name) {
        Some(index) => Some(index),
        None => index_in_name(stem, ".bin.gz", name),
    }
}

proof fn lemma_one_more_file(stem: Seq<char>, files: Seq<(String, u64)>, n: int, index: u32)
    requires
        0 <= n < files.len(),
    ensures
        holds_segment(stem, files, n + 1, index) <==> (holds_segment(stem, files, n, index)
            || is_sealed_file(stem, index, files[n].0@)),
{
    if holds_segment(stem, files, n, index) {
        let i = choose|i: int| 0 <= i < n && is_sealed_file(stem, index, (#[trigger] files[i]).0@);
        assert(0 <= i < n + 1 && is_sealed_file(stem, index, files[i].0@));
    }
}

proof fn lemma_no_file_no_bytes(stem: Seq<char>, files: Seq<(String, u64)>, n: int, index: u32)
    requires
        0 <= n <= files.len(),
        !holds_segment(stem, files, n, index),
    ensures
        segment_bytes(stem, files, n, index) == 0,
    decreases n,
{
    if n > 0 {
        lemma_one_more_file(stem, files, n - 1, index);
        lemma_no_file_no_bytes(stem, files, n - 1, index);
    }
}

proof fn lemma_other_file(
    closed: Seq<ClosedSegment>,
    stem: Seq<char>,
    files: Seq<(String, u64)>,
    n: int,
)
    requires
        0 <= n < files.len(),
        lists_segments(closed, stem, files, n),
        forall|index: u32| !#[trigger] is_sealed_file(stem, index, files[n].0@),
    ensures
        lists_segments(closed, stem, files, n + 1),
{
    assert forall|index: u32| #[trigger]
        holds_segment(stem, files, n + 1, index) == holds_segment(stem, files, n, index) by {
        lemma_one_more_file(stem, files, n, index);
    }
    assert forall|a: int| 0 <= a < closed.len() implies holds_segment(
        stem,
        files,
        n + 1,
        (#[trigger] closed[a]).0,
    ) && closed[a].1 == counted_size(segment_bytes(stem, files, n + 1, closed[a].0)) by {
        assert(holds_segment(stem, files, n + 1, closed[a].0));
        assert(!is_sealed_file(stem, closed[a].0, files[n].0@));
    }
}

fn add_file(
    closed: &mut Vec<ClosedSegment>,
    stem: &str,
    files: &Vec<(String, u64)>,
    n: usize,
    index: u32,
)
    requires
        n < files@.len(),
        lists_segments(old(closed)@, stem@, files@, n as int),
        is_sealed_file(stem@, index, files@[n as int].0@),
    ensures
        lists_segments(final(closed)@, stem@, files@, n + 1),
{
    let ghost before = closed@;
    let size: u64 = files[n].1;
    proof {
        assert forall|other: u32| #[trigger]
            holds_segment(stem@, files@, n + 1, other) == (holds_segment(
                stem@,
                files@,
                n as int,
                other,
            ) || other == index) by {
            lemma_one_more_file(stem@, files@, n as int, other);
            if is_sealed_file(stem@, other, files@[n as int].0@) {
                lemma_sealed_index_is_unique(stem@, other, index, files@[n as int].0@);
            }
        }
        assert forall|other: u32| other != index implies #[trigger] segment_bytes(
            stem@,
            files@,
            n + 1,
            other,
        ) == segment_bytes(stem@, files@, n as int, other) by {
            if is_sealed_file(stem@, other, files@[n as int].0@) {
                lemma_sealed_index_is_unique(stem@, other, index, files@[n as int].0@);
            }
        }
    }
    let mut at: usize = 0;
    while at < closed.len() && closed[at].0 < index
        invariant
            at <= closed@.len(),
            closed@ == before,
            forall|a: int| 0 <= a < at ==> (#[trigger] before[a]).0 < index,
        decreases closed@.len() - at,
    {
        at += 1;
    }
    if at < closed.len() && closed[at].0 == index {
        let known: u64 = closed[at].1;
        closed.set(at, (index, known.saturating_add(size)));
        proof {
            assert(before[at as int].1 == known);
            assert forall|other: u32| #[trigger]
                holds_segment(stem@, files@, n + 1, other) implies exists|a: int|
                0 <= a < closed@.len() && (#[trigger] closed@[a]).0 == other by {
                if other == index {
                    assert(closed@[at as int].0 == other);
                } else {
                    assert(holds_segment(stem@, files@, n as int, other));
                    let a = choose|a: int|
                        0 <= a < before.len() && (#[trigger] before[a]).0 == other;
                    assert(closed@[a].0 == other);
                }
            }
        }
    } else {
        proof {
            if holds_segment(stem@, files@, n as int, index) {
                let a = choose|a: int| 0 <= a < before.len() && (#[trigger] before[a]).0 == index;
                assert(at <= a);
                assert(before[at as int].0 <= before[a].0);
            }
            lemma_no_file_no_bytes(stem@, files@, n as int, index);
        }
        closed.insert(at, (index, size));
        proof {
            let after = closed@;
            assert(after =~= before.insert(at as int, (index, size)));
            assert forall|a: int, b: int| 0 <= a < b < after.len() implies (#[trigger] after[a]).0
                < (#[trigger] after[b]).0 by {
                let x = if a < at {
                    a
                } else {
                    a - 1
                };
                let y = if b < at {
                    b
                } else {
                    b - 1
                };
                if a != at {
                    assert(after[a] == before[x]);
                }
                if b != at {
                    assert(after[b] == before[y]);
                    if at < before.len() {
                        assert(b > at ==> before[at as int].0 <= before[y].0);
                    }
                }
            }
            assert forall|a: int| 0 <= a < after.len() implies holds_segment(
                stem@,
                files@,
                n + 1,
                (#[trigger] after[a]).0,
            ) && after[a].1 == counted_size(segment_bytes(stem@, files@, n + 1, after[a].0)) by {
                if a == at {
                    assert(holds_segment(stem@, files@, n + 1, index));
                } else {
                    let x = if a < at {
                        a
                    } else {
                        a - 1
                    };
                    assert(after[a] == before[x]);
                    assert(holds_segment(stem@, files@, n + 1, before[x].0));
                }
            }
            assert forall|other: u32| #[trigger]
                holds_segment(stem@, files@, n + 1, other) implies exists|a: int|
                0 <= a < after.len() && (#[trigger] after[a]).0 == other by {
                if other == index {
                    assert(after[at as int].0 == other);
                } else {
                    assert(holds_segment(stem@, files@, n as int, other));
                    let x = choose|a: int|
                        0 <= a < before.len() && (#[trigger] before[a]).0 == other;
                    let a = if x < at {
                        x
                    } else {
                        x + 1
                    };
                    assert(after[a] == before[x]);
                }
            }
        }
    }
}

/// What is to be made of the files in the trace directory.
pub open spec fn is_discovery(
    stem: Seq<char>,
    files: Seq<(String, u64)>,
    r: Result<Discovered, WriterError>,
) -> bool {
    let n = files.len() as int;
    &&& r is Err <==> holds_segment(stem, files, n, u32::MAX)
    &&& match r {
        Ok(found) => {
            &&& lists_segments(found.closed@, stem, files, n)
            &&& found.first_index == (if found.closed@.len() == 0 {
                0
            } else {
                found.closed@.last().0 + 1
            })
            &&& forall|i: int|
                0 <= i < found.closed@.len() ==> (#[trigger] found.closed@[i]).0
                    < found.first_index
            &&& found.stale@.len() == active_files(stem, files, n).len()
            &&& forall|i: int|
                0 <= i < found.stale@.len() ==> (#[trigger] found.stale@[i])@ == active_files(
                    stem,
                    files,
                    n,
                )[i]
        },
        Err(error) => error == WriterError::IndexOverflow,
    }
}

/// Sorts what is in the trace directory: sealed segments count towards the
/// budget together with their compressed copies, the next segment gets the
/// index after the newest of them, and segments that were never sealed are to
/// be removed.
pub fn discover_existing(stem: &str, files: &Vec<(String, u64)>) -> (r: Result<
    Discovered,
    WriterError,
>)
    ensures
        is_discovery(stem@, files@, r),
{
    let mut closed: Vec<ClosedSegment> = Vec::new();
    let mut stale: Vec<String> = Vec::new();
    let mut n: usize = 0;
    while n < files.len()
        invariant
            n <= files@.len(),
            lists_segments(closed@, stem@, files@, n as int),
            stale@.len() == active_files(stem@, files@, n as int).len(),
            forall|i: int|
                0 <= i < stale@.len() ==> (#[trigger] stale@[i])@ == active_files(
                    stem@,
                    files@,
                    n as int,
                )[i],
        decreases files@.len() - n,
    {
        match sealed_index(stem, &files[n].0) {
            Some(index) => {
                add_file(&mut closed, stem, files, n, index);
            },
            None => {
                proof {
                    lemma_other_file(closed@, stem@, files@, n as int);
                }
            },
        }
        if index_in_name(stem, ".bin.active", &files[n].0).is_some() {
            stale.push(files[n].0.clone());
        }
        n += 1;
    }
    let count: usize = closed.len();
    let first_index: u32 = if count == 0 {
        0
    } else {
        let last: u32 = closed[count - 1].0;
        if last == 0xffff_ffff {
            return Err(WriterError::IndexOverflow);
        }
        last + 1
    };
    let mut queue: VecDeque<ClosedSegment> = VecDeque::new();
    let mut i: usize = 0;
    while i < count
        invariant
            i <= count == closed@.len(),
            queue@ == closed@.take(i as int),
        decreases count - i,
    {
        queue.push_back(closed[i]);
        i += 1;
        assert(closed@.take(i as int) =~= closed@.take(i - 1).push(closed@[i - 1]));
    }
    assert(queue@ =~= closed@);
    Ok(Discovered { closed: queue, first_index, stale })
}

proof fn lemma_segment_bytes(
    stem: Seq<char>,
    files: Seq<(String, u64)>,
    n: int,
    index: u32,
) -> (sizes: Seq<nat>)
    requires
        0 <= n <= files.len(),
    ensures
        sizes.len() == n,
        forall|i: int|
            0 <= i < n ==> #[trigger] sizes[i] == if is_sealed_file(stem, index, files[i].0@) {
                files[i].1 as nat
            } else {
                0
            },
        segment_bytes(stem, files, n, index) == sizes.fold_left(0nat, |x: nat, y: nat| x + y),
    decreases n,
{
    if n == 0 {
        reveal_with_fuel(Seq::fold_left, 1);
        Seq::empty()
    } else {
        let before = lemma_segment_bytes(stem, files, n - 1, index);
        let size = if is_sealed_file(stem, index, files[n - 1].0@) {
            files[n - 1].1 as nat
        } else {
            0
        };
        let sizes = before.push(size);
        assert(sizes.drop_last() =~= before);
        reveal_with_fuel(Seq::fold_left, 2);
        sizes
    }
}

proof fn lemma_active_files(stem: Seq<char>, files: Seq<(String, u64)>, n: int) -> (at: Seq<int>)
    requires
        0 <= n <= files.len(),
    ensures
        active_files(stem, files, n).len() == at.len(),
        forall|k: int|
            0 <= k < at.len() ==> 0 <= #[trigger] at[k] < n && active_files(stem, files, n)[k]
                == files[at[k]].0@,
        forall|j: int, k: int| 0 <= j < k < at.len() ==> #[trigger] at[j] < #[trigger] at[k],
        forall|i: int|
            0 <= i < n ==> (#[trigger] at.contains(i) <==> is_active_file(stem, files[i].0@)),
    decreases n,
{
    if n == 0 {
        Seq::empty()
    } else {
        let before = lemma_active_files(stem, files, n - 1);
        let at = if is_active_file(stem, files[n - 1].0@) {
            before.push(n - 1)
        } else {
            before
        };
        assert forall|i: int| 0 <= i < n implies (#[trigger] at.contains(i) <==> is_active_file(
            stem,
            files[i].0@,
        )) by {
            if at.contains(i) {
                let k = choose|k: int| 0 <= k < at.len() && at[k] == i;
                if i < n - 1 {
                    assert(before[k] == i);
                    assert(before.contains(i));
                } else if k < before.len() {
                    assert(before[k] == i);
                }
            }
            if i < n - 1 && before.contains(i) {
                let k = choose|k: int| 0 <= k < before.len() && before[k] == i;
                assert(at[k] == i);
            }
            if i == n - 1 && is_active_file(stem, files[i].0@) {
                assert(at[before.len() as int] == i);
            }
        }
        at
    }
}

/// A sealed segment is taken over exactly if the directory holds its file
/// `{stem}.{index}.bin` or `{stem}.{index}.bin.gz`; it is listed once, and its
/// size is the sum of the sizes of these files, of which `sizes` has one entry
/// for each file of the directory, capped at the largest size.
pub proof fn law_every_sealed_segment_is_taken_over(
    stem: Seq<char>,
    files: Seq<(String, u64)>,
    found: Discovered,
    index: u32,
) -> (sizes: Seq<nat>)
    requires
        is_discovery(stem, files, Ok(found)),
    ensures
        (exists|a: int| 0 <= a < found.closed@.len() && (#[trigger] found.closed@[a]).0 == index)
            <==> (exists|i: int|
            0 <= i < files.len() && ((#[trigger] files[i]).0@ == stem + "."@ + decimal(
                index as nat,
            ) + ".bin"@ || files[i].0@ == stem + "."@ + decimal(index as nat) + ".bin.gz"@)),
        forall|a: int, b: int|
            0 <= a < b < found.closed@.len() ==> (#[trigger] found.closed@[a]).0 < (
            #[trigger] found.closed@[b]).0,
        sizes.len() == files.len(),
        forall|i: int|
            0 <= i < files.len() ==> #[trigger] sizes[i] == if files[i].0@ == stem + "."@
                + decimal(index as nat) + ".bin"@ || files[i].0@ == stem + "."@ + decimal(
                index as nat,
            ) + ".bin.gz"@ {
                files[i].1 as nat
            } else {
                0
            },
        forall|a: int|
            0 <= a < found.closed@.len() && (#[trigger] found.closed@[a]).0 == index ==> {
                let total = sizes.fold_left(0nat, |x: nat, y: nat| x + y);
                &&& total <= u64::MAX ==> found.closed@[a].1 == total
                &&& total > u64::MAX ==> found.closed@[a].1 == u64::MAX
            },
{
    let n = files.len() as int;
    let closed = found.closed@;
    if exists|a: int| 0 <= a < closed.len() && (#[trigger] closed[a]).0 == index {
        let a = choose|a: int| 0 <= a < closed.len() && (#[trigger] closed[a]).0 == index;
        assert(holds_segment(stem, files, n, closed[a].0));
    }
    if exists|i: int| 0 <= i < n && is_sealed_file(stem, index, (#[trigger] files[i]).0@) {
        assert(holds_segment(stem, files, n, index));
    }
    lemma_segment_bytes(stem, files, n, index)
}

/// The next segment gets the index right after the newest one that the
/// directory holds, or zero if it holds none; if there is no such index,
/// nothing is taken over.
pub proof fn law_numbering_goes_on_after_the_newest_segment(
    stem: Seq<char>,
    files: Seq<(String, u64)>,
    r: Result<Discovered, WriterError>,
)
    requires
        is_discovery(stem, files, r),
    ensures
        r matches Ok(found) ==> {
            &&& forall|index: u32, i: int|
                0 <= i < files.len() && #[trigger] is_sealed_file(
                    stem,
                    index,
                    (#[trigger] files[i]).0@,
                ) ==> index < found.first_index
            &&& found.first_index > 0 ==> exists|i: int|
                0 <= i < files.len() && is_sealed_file(
                    stem,
                    (found.first_index - 1) as u32,
                    (#[trigger] files[i]).0@,
                )
        },
        r is Err <==> exists|i: int|
            0 <= i < files.len() && is_sealed_file(stem, u32::MAX, (#[trigger] files[i]).0@),
        r matches Err(error) ==> error == WriterError::IndexOverflow,
{
    let n = files.len() as int;
    if let Ok(found) = r {
        assert forall|index: u32, i: int|
            0 <= i < n && #[trigger] is_sealed_file(stem, index, (#[trigger] files[i]).0@) implies index
            < found.first_index by {
            assert(holds_segment(stem, files, n, index));
        }
        if found.first_index > 0 {
            assert(holds_segment(stem, files, n, found.closed@.last().0));
        }
    }
}

/// The stale files are the files of the directory, at the positions `at` and
/// in order, that are named `{stem}.{index}.bin.active` for some index.
pub proof fn law_stale_files_are_those_of_unsealed_segments(
    stem: Seq<char>,
    files: Seq<(String, u64)>,
    found: Discovered,
) -> (at: Seq<int>)
    requires
        is_discovery(stem, files, Ok(found)),
    ensures
        found.stale@.len() == at.len(),
        forall|k: int|
            0 <= k < at.len() ==> 0 <= #[trigger] at[k] < files.len() && found.stale@[k]@
                == files[at[k]].0@,
        forall|j: int, k: int| 0 <= j < k < at.len() ==> #[trigger] at[j] < #[trigger] at[k],
        forall|i: int|
            0 <= i < files.len() ==> (#[trigger] at.contains(i) <==> exists|index: u32|
                files[i].0@ == stem + "."@ + #[trigger] decimal(index as nat) + ".bin.active"@),
{
    let at = lemma_active_files(stem, files, files.len() as int);
    assert forall|i: int| 0 <= i < files.len() implies (#[trigger] at.contains(i) <==> exists|
        index: u32,
    |
        files[i].0@ == stem + "."@ + #[trigger] decimal(index as nat) + ".bin.active"@) by {
        let name = files[i].0@;
        if is_active_file(stem, name) {
            let index = choose|index: u32|
                name == #[trigger] numbered_name(stem, index, ".bin.active"@);
            assert(name == stem + "."@ + decimal(index as nat) + ".bin.active"@);
        }
        if exists|index: u32|
            name == stem + "."@ + #[trigger] decimal(index as nat) + ".bin.active"@ {
            let index = choose|index: u32|
                name == stem + "."@ + #[trigger] decimal(index as nat) + ".bin.active"@;
            assert(name == numbered_name(stem, index, ".bin.active"@));
        }
    }
    at
}

/// A process finds again what it wrote: the name of a sealed segment stands for
/// that segment and no other, and that of an open one for one that was never
/// sealed.
pub proof fn law_own_files_are_recognised(stem: Seq<char>, index: u32, other: u32)
    ensures
        is_sealed_file(stem, index, crate::writer::sealed_name_of(stem, index)),
        is_sealed_file(stem, other, crate::writer::sealed_name_of(stem, index)) ==> other == index,
        is_active_file(stem, crate::writer::active_name_of(stem, index)),
        !is_active_file(stem, crate::writer::sealed_name_of(stem, index)),
        !is_sealed_file(stem, other, crate::writer::active_name_of(stem, index)),
{
    reveal_strlit(".bin");
    reveal_strlit(".bin.gz");
    reveal_strlit(".bin.active");
    let sealed = crate::writer::sealed_name_of(stem, index);
    let active = crate::writer::active_name_of(stem, index);
    assert(sealed == numbered_name(stem, index, ".bin"@));
    assert(active == numbered_name(stem, index, ".bin.active"@));
    if is_sealed_file(stem, other, sealed) {
        lemma_sealed_index_is_unique(stem, other, index, sealed);
    }
    assert(sealed.last() == 'n');
    assert(active.last() == 'e');
    assert forall|i: u32| #[trigger] numbered_name(stem, i, ".bin.active"@) != sealed by {
        assert(numbered_name(stem, i, ".bin.active"@).last() == 'e');
    }
    assert(numbered_name(stem, other, ".bin"@).last() == 'n');
    assert(numbered_name(stem, other, ".bin.gz"@).last() == 'z');
}

/// Every number is read back from its decimal notation.
pub proof fn law_numbers_are_read_back(n: u64)
    ensures
        number_of(decimal(n as nat)) == Some(n),
{
    lemma_decimal_reads_back(n as nat);
    assert(is_digit(decimal(n as nat)[0]));
    assert(without_plus(decimal(n as nat)) == decimal(n as nat));
}

} // verus!
