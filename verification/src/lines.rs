//! In-memory line storage with finite and cyclic iteration.
//!
//! The reader owns every line of its input.  `iter` walks the lines once in
//! order; `cycle` wraps around to the first line after the last one and
//! never runs out while any line is stored.

use vstd::prelude::*;

verus! {

/// Removes every trailing newline character from one physical line.
pub open spec fn stripped(s: Seq<char>) -> Seq<char>
    decreases s.len(),
{
    if s.len() > 0 && s.last() == '\n' {
        stripped(s.drop_last())
    } else {
        s
    }
}

/// Drops the line terminator (any run of trailing `'\n'`) from a line as
/// it was read from a file.
pub fn strip_newline(s: &str) -> (r: String)
    ensures
        r@ == stripped(s@),
{
    let n = s.unicode_len();
    let mut e: usize = n;
    proof {
        assert(s@.take(n as int) =~= s@);
    }
    while e > 0 && s.get_char(e - 1) == '\n'
        invariant
            e <= n == s@.len(),
            stripped(s@) == stripped(s@.take(e as int)),
        decreases e,
    {
        proof {
            let p = s@.take(e as int);
            assert(p.last() == s@[e - 1]);
            assert(p.drop_last() =~= s@.take(e - 1));
        }
        e = e - 1;
    }
    proof {
        let p = s@.take(e as int);
        if p.len() > 0 {
            assert(p.last() == s@[e - 1]);
        }
        assert(stripped(p) == p);
    }
    let r = s.substring_char(0, e);
    proof {
        assert(r@ =~= s@.take(e as int));
    }
    String::from_str(r)
}

/// Holds the lines of one input, in file order, and hands out iterators
/// over them.
pub struct InfiniteLinesReader {
    lines: Vec<String>,
}

/// One finite, in-order pass over the stored lines.
pub struct LinesIter<'a> {
    lines: &'a Vec<String>,
    pos: usize,
}

/// An endless pass over the stored lines, wrapping around after the last.
pub struct CycleIter<'a> {
    lines: &'a Vec<String>,
    pos: usize,
    taken: Ghost<nat>,
}

impl View for InfiniteLinesReader {
    type V = Seq<Seq<char>>;

    closed spec fn view(&self) -> Seq<Seq<char>> {
        self.lines.deep_view()
    }
}

impl InfiniteLinesReader {
    /// Wraps the given lines, already split and stripped of terminators.
    pub fn from_lines(lines: Vec<String>) -> (r: InfiniteLinesReader)
        ensures
            r@ == lines.deep_view(),
    {
        InfiniteLinesReader { lines }
    }

    /// The stored lines themselves, in file order.
    pub fn lines(&self) -> (r: &Vec<String>)
        ensures
            r.deep_view() == self@,
    {
        &self.lines
    }

    /// How many lines are stored.
    pub fn length(&self) -> (r: usize)
        ensures
            r == self@.len(),
    {
        self.lines.len()
    }

    /// A fresh in-order iterator over all lines, starting at the first.
    pub fn iter<'a>(&'a self) -> (r: LinesIter<'a>)
        ensures
            r.lines_view() == self@,
            r.pos() == 0,
    {
        LinesIter { lines: &self.lines, pos: 0 }
    }

    /// An endless iterator over the lines: after the last line it starts
    /// over at the first, and it only ends when no line is stored at all.
    pub fn cycle<'a>(&'a self) -> (r: CycleIter<'a>)
        ensures
            r.lines_view() == self@,
            r.taken() == 0,
            r.wf(),
    {
        CycleIter { lines: &self.lines, pos: 0, taken: Ghost(0) }
    }
}

impl<'a> LinesIter<'a> {
    /// The lines this iterator walks.
    pub closed spec fn lines_view(&self) -> Seq<Seq<char>> {
        self.lines.deep_view()
    }

    /// How many lines were already produced.
    pub closed spec fn pos(&self) -> nat {
        self.pos as nat
    }

    /// The cursor is a machine word, so it never exceeds `usize::MAX`.
    pub proof fn lemma_pos_bound(&self)
        ensures
            self.pos() <= usize::MAX,
    {
    }

    /// The next line in file order, or `None` when all lines were seen.
    pub fn next(&mut self) -> (r: Option<&'a String>)
        ensures
            final(self).lines_view() == old(self).lines_view(),
            old(self).pos() < old(self).lines_view().len() ==> {
                &&& final(self).pos() == old(self).pos() + 1
                &&& r matches Some(s) && s.deep_view() == old(self).lines_view()[old(
                    self,
                ).pos() as int]
            },
            old(self).pos() >= old(self).lines_view().len() ==> {
                &&& final(self).pos() == old(self).pos()
                &&& r is None
            },
    {
        if self.pos < self.lines.len() {
            let r = &self.lines[self.pos];
            self.pos = self.pos + 1;
            Some(r)
        } else {
            None
        }
    }
}

impl<'a> CycleIter<'a> {
    /// The lines this iterator walks, endlessly.
    pub closed spec fn lines_view(&self) -> Seq<Seq<char>> {
        self.lines.deep_view()
    }

    /// How many lines were already produced, over all rounds.
    pub closed spec fn taken(&self) -> nat {
        self.taken@
    }

    /// The cursor stays inside the lines and agrees with the count of
    /// lines already produced.
    pub closed spec fn wf(&self) -> bool {
        if self.lines.len() == 0 {
            self.pos == 0
        } else {
            self.pos as nat == self.taken@ % (self.lines.len() as nat)
        }
    }

    /// The next line of the endless walk: line `taken() mod length` of the
    /// stored lines.  Only an empty line store ends the walk.
    pub fn next(&mut self) -> (r: Option<&'a String>)
        requires
            old(self).wf(),
        ensures
            final(self).lines_view() == old(self).lines_view(),
            final(self).wf(),
            old(self).lines_view().len() > 0 ==> {
                &&& final(self).taken() == old(self).taken() + 1
                &&& r matches Some(s) && s.deep_view() == old(self).lines_view()[(old(
                    self,
                ).taken() % old(self).lines_view().len()) as int]
            },
            old(self).lines_view().len() == 0 ==> r is None && *final(self) == *old(self),
    {
        if self.lines.len() == 0 {
            return None;
        }
        let r = &self.lines[self.pos];
        proof {
            assert(self.pos as nat == self.taken@ % (self.lines.len() as nat));
        }
        if self.pos + 1 < self.lines.len() {
            self.pos = self.pos + 1;
        } else {
            self.pos = 0;
        }
        proof {
            let n = self.lines.len() as int;
            let t = self.taken@ as int;
            vstd::arithmetic::div_mod::lemma_mod_bound(t, n);
            vstd::arithmetic::div_mod::lemma_fundamental_div_mod(t, n);
            let q = t / n;
            let m = t % n;
            assert(t == n * q + m);
            if m + 1 == n {
                assert((q + 1) * n == n * q + n) by (nonlinear_arith);
                assert(t + 1 == (q + 1) * n + 0);
                vstd::arithmetic::div_mod::lemma_fundamental_div_mod_converse(t + 1, n, q + 1, 0);
            } else {
                assert(q * n == n * q) by (nonlinear_arith);
                assert(t + 1 == q * n + (m + 1));
                vstd::arithmetic::div_mod::lemma_fundamental_div_mod_converse(
                    t + 1,
                    n,
                    q,
                    m + 1,
                );
            }
        }
        self.taken = Ghost(self.taken@ + 1);
        Some(r)
    }
}

} // verus!
