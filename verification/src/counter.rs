//! Counts the gates of a circuit by their kind, whatever the kinds are.

use crate::bristol::{parse_header, parse_header_tokens, CircuitError, GateLineError};
use crate::text::{lines, piece, ranges_are_lines, split_lines, tokenize, tokens};
use vstd::prelude::*;
use vstd::slice::slice_to_vec;

verus! {

/// How many of the lines end with the kind `name`.
pub open spec fn kind_count(ls: Seq<Seq<u8>>, name: Seq<u8>) -> nat
    decreases ls.len(),
{
    if ls.len() == 0 {
        0
    } else {
        kind_count(ls.drop_last(), name) + if tokens(ls.last()).len() > 0 && tokens(
            ls.last(),
        ).last() == name {
            1nat
        } else {
            0nat
        }
    }
}

/// Nothing if every line holds a token; else the first line without one, its number counted
/// from `line_offset + 1`.
pub open spec fn first_blank_line(ls: Seq<Seq<u8>>, line_offset: nat) -> Option<CircuitError>
    decreases ls.len(),
{
    if ls.len() == 0 {
        None
    } else {
        match first_blank_line(ls.drop_last(), line_offset) {
            Some(e) => Some(e),
            None => if tokens(ls.last()).len() == 0 {
                Some(
                    CircuitError::Gate {
                        line: (line_offset + ls.len()) as u64,
                        error: GateLineError::Empty,
                    },
                )
            } else {
                None
            },
        }
    }
}

/// All gate lines of a circuit text whose header is well-formed and whose gate lines all hold a
/// token; or the first fault. The header is line 1.
pub open spec fn counted_lines(text: Seq<u8>) -> Result<Seq<Seq<u8>>, CircuitError> {
    let ls = lines(text);
    if ls.len() == 0 {
        Err(CircuitError::MissingHeader)
    } else {
        match parse_header_tokens(tokens(ls[0])) {
            Err(e) => Err(e),
            Ok(_) => match first_blank_line(ls.drop_first(), 1) {
                Some(e) => Err(e),
                None => Ok(ls.drop_first()),
            },
        }
    }
}

/// All gate kinds of a circuit, each with the number of its gates. The kinds stand in the order
/// in which the circuit first names them.
#[derive(Debug)]
pub struct GateTypeCounts {
    names: Vec<Vec<u8>>,
    counts: Vec<usize>,
}

/// Whether two byte strings are equal.
pub fn same_bytes(a: &[u8], b: &[u8]) -> (r: bool)
    ensures
        r == (a@ == b@),
{
    if a.len() != b.len() {
        return false;
    }
    let mut i: usize = 0;
    while i < a.len()
        invariant
            i <= a@.len(),
            a@.len() == b@.len(),
            forall|j: int| 0 <= j < i ==> a@[j] == b@[j],
        decreases a@.len() - i,
    {
        if a[i] != b[i] {
            return false;
        }
        i += 1;
    }
    assert(a@ =~= b@);
    true
}

impl GateTypeCounts {
    /// The kinds that were counted, in the order of their first gate.
    pub closed spec fn kinds(&self) -> Seq<Seq<u8>> {
        Seq::new(self.names@.len(), |i: int| self.names@[i]@)
    }

    /// The number of gates of the kind at position `i`.
    pub closed spec fn count_at(&self, i: int) -> nat {
        self.counts@[i] as nat
    }

    /// The internal invariant: one count for each kind, and no kind twice.
    pub closed spec fn wf(&self) -> bool {
        &&& self.names@.len() == self.counts@.len()
        &&& self.kinds().no_duplicates()
    }

    /// Whether these are the counts of gate lines `ls`: every kind that ends a line is
    /// listed once, with the number of lines that it ends.
    pub open spec fn counts_lines(&self, ls: Seq<Seq<u8>>) -> bool {
        &&& self.wf()
        &&& forall|i: int|
            #![trigger self.count_at(i)]
            #![trigger self.kinds()[i]]
            0 <= i < self.kinds().len() ==> self.count_at(i) > 0 && self.count_at(i) == kind_count(
                ls,
                self.kinds()[i],
            )
        &&& forall|name: Seq<u8>| #[trigger] kind_count(ls, name) > 0 ==> self.kinds().contains(name)
    }

    /// The number of different kinds.
    pub fn len(&self) -> (n: usize)
        ensures
            n == self.kinds().len(),
    {
        self.names.len()
    }

    /// The kind at position `i`, with the number of its gates.
    pub fn entry(&self, i: usize) -> (r: (&Vec<u8>, usize))
        requires
            self.wf(),
            i < self.kinds().len(),
        ensures
            r.0@ == self.kinds()[i as int],
            r.1 == self.count_at(i as int),
    {
        (&self.names[i], self.counts[i])
    }

    /// The position of a kind, if it was counted.
    fn position(&self, name: &[u8]) -> (r: Option<usize>)
        requires
            self.wf(),
        ensures
            match r {
                Some(i) => i < self.kinds().len() && self.kinds()[i as int] == name@,
                None => !self.kinds().contains(name@),
            },
    {
        let mut i: usize = 0;
        while i < self.names.len()
            invariant
                i <= self.names@.len(),
                forall|j: int| 0 <= j < i ==> self.kinds()[j] != name@,
            decreases self.names@.len() - i,
        {
            if same_bytes(self.names[i].as_slice(), name) {
                return Some(i);
            }
            i += 1;
        }
        None
    }

    /// The number of gates of the kind `name`, if there is such a gate.
    pub fn get(&self, name: &[u8]) -> (r: Option<usize>)
        requires
            self.wf(),
        ensures
            match r {
                Some(c) => exists|i: int|
                    0 <= i < self.kinds().len() && self.kinds()[i] == name@ && c == self.count_at(
                        i,
                    ),
                None => !self.kinds().contains(name@),
            },
    {
        match self.position(name) {
            Some(i) => {
                assert(self.kinds()[i as int] == name@ && self.counts[i as int] == self.count_at(
                    i as int,
                ));
                Some(self.counts[i])
            },
            None => None,
        }
    }
}

/// Counts the gates of a circuit text by kind. The kind of a gate is the last token of its
/// line; no set of kinds is prescribed. A gate line without a token is an error.
///
/// The header is line 1.
pub fn count_gate_types(text: &[u8]) -> (r: Result<GateTypeCounts, CircuitError>)
    ensures
        match counted_lines(text@) {
            Err(e) => r == Err::<GateTypeCounts, CircuitError>(e),
            Ok(ls) => r is Ok && r->Ok_0.counts_lines(ls),
        },
{
    let ranges = split_lines(text);
    if ranges.len() == 0 {
        return Err(CircuitError::MissingHeader);
    }
    match parse_header(piece(text, ranges[0])) {
        Err(e) => {
            return Err(e);
        },
        Ok(_) => {},
    }
    let ghost ls = lines(text@);
    let ghost gl = ls.drop_first();
    let mut result = GateTypeCounts { names: Vec::new(), counts: Vec::new() };
    let mut k: usize = 1;
    while k < ranges.len()
        invariant
            1 <= k <= ranges.len(),
            ranges_are_lines(text@, ranges@),
            ls == lines(text@),
            gl == ls.drop_first(),
            ls.len() == ranges.len(),
            parse_header_tokens(tokens(ls[0])) is Ok,
            first_blank_line(gl.take(k - 1), 1) is None,
            result.counts_lines(gl.take(k - 1)),
            forall|i: int| 0 <= i < result.kinds().len() ==> result.count_at(i) <= k - 1,
        decreases ranges.len() - k,
    {
        let line = piece(text, ranges[k]);
        let ghost done = gl.take(k - 1);
        let ghost next = gl.take(k as int);
        proof {
            assert(next.drop_last() == done);
            assert(next.last() == ls[k as int]);
            assert(next.len() == k);
            assert(ls[k as int] == line@);
            lemma_first_blank_line(gl, k as int, 1);
        }
        let toks = tokenize(line);
        if toks.len() == 0 {
            return Err(CircuitError::Gate { line: k as u64 + 1, error: GateLineError::Empty });
        }
        let last: (usize, usize) = toks[toks.len() - 1];
        let name: &[u8] = piece(line, last);
        assert(name@ == tokens(line@).last());
        let ghost old_kinds = result.kinds();
        let ghost before = result;
        match result.position(name) {
            Some(i) => {
                let c: usize = result.counts[i];
                result.counts[i] = c + 1;
                proof {
                    assert(result.kinds() =~= old_kinds);
                    assert(result.wf());
                    assert forall|j: int| 0 <= j < result.kinds().len() implies result.count_at(j)
                        <= k by {
                        assert(before.count_at(j) <= k - 1);
                    }
                    assert forall|j: int|
                        #![trigger result.count_at(j)]
                        #![trigger result.kinds()[j]]
                        0 <= j < result.kinds().len() implies result.count_at(j) > 0
                        && result.count_at(j) == kind_count(next, result.kinds()[j]) by {
                        assert(before.count_at(j) == kind_count(done, before.kinds()[j]));
                        if j != i {
                            assert(old_kinds[j] != old_kinds[i as int]);
                        }
                    }
                    assert forall|n: Seq<u8>| #[trigger] kind_count(next, n) > 0 implies result.kinds().contains(
                        n,
                    ) by {
                        if n == name@ {
                            assert(old_kinds[i as int] == n);
                        } else {
                            assert(kind_count(done, n) > 0);
                        }
                    }
                    assert(result.counts_lines(next));
                }
            },
            None => {
                result.names.push(slice_to_vec(name));
                result.counts.push(1);
                proof {
                    assert(result.kinds() =~= old_kinds.push(name@));
                    assert(result.kinds().no_duplicates()) by {
                        assert forall|a: int, b: int|
                            0 <= a < result.kinds().len() && 0 <= b < result.kinds().len() && a
                                != b implies result.kinds()[a] != result.kinds()[b] by {
                            if a < old_kinds.len() {
                                assert(old_kinds.contains(old_kinds[a]));
                            }
                            if b < old_kinds.len() {
                                assert(old_kinds.contains(old_kinds[b]));
                            }
                        }
                    }
                    assert(result.wf());
                    assert forall|j: int| 0 <= j < result.kinds().len() implies result.count_at(j)
                        <= k by {
                        if j < old_kinds.len() {
                            assert(before.count_at(j) <= k - 1);
                        }
                    }
                    assert(kind_count(done, name@) == 0) by {
                        if kind_count(done, name@) > 0 {
                            assert(old_kinds.contains(name@));
                        }
                    }
                    assert forall|j: int|
                        #![trigger result.count_at(j)]
                        #![trigger result.kinds()[j]]
                        0 <= j < result.kinds().len() implies result.count_at(j) > 0
                        && result.count_at(j) == kind_count(next, result.kinds()[j]) by {
                        if j < old_kinds.len() {
                            assert(before.count_at(j) == kind_count(done, before.kinds()[j]));
                            assert(old_kinds.contains(old_kinds[j]));
                        }
                    }
                    assert forall|n: Seq<u8>| #[trigger] kind_count(next, n) > 0 implies result.kinds().contains(
                        n,
                    ) by {
                        if n == name@ {
                            assert(result.kinds()[old_kinds.len() as int] == n);
                        } else {
                            assert(kind_count(done, n) > 0);
                            let j = choose|j: int| 0 <= j < old_kinds.len() && old_kinds[j] == n;
                            assert(result.kinds()[j] == n);
                        }
                    }
                    assert(result.counts_lines(next));
                }
            },
        }
        k += 1;
    }
    proof {
        assert(gl.take(k - 1) == gl);
    }
    Ok(result)
}

/// A line without a token among the first `k` lines is the fault of all the lines.
pub proof fn lemma_first_blank_line(ls: Seq<Seq<u8>>, k: int, line_offset: nat)
    requires
        0 <= k <= ls.len(),
    ensures
        first_blank_line(ls.take(k), line_offset) is Some ==> first_blank_line(ls, line_offset)
            == first_blank_line(ls.take(k), line_offset),
    decreases ls.len() - k,
{
    if k < ls.len() {
        lemma_first_blank_line(ls, k + 1, line_offset);
        assert(ls.take(k + 1).drop_last() == ls.take(k));
    } else {
        assert(ls.take(k) == ls);
    }
}

} // verus!
