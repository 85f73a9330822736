//! Line sets and the three set operations over them.
//!
//! A [`LineSet`] holds the distinct lines of a text source. The lines are
//! stored in order of first occurrence, and that order is also the order in
//! which [`LineSet::format`] lists them; it is the one documented enumeration
//! order of this library.

use vstd::prelude::*;
use vstd::seq_lib::lemma_no_dup_in_concat;
use vstd::string::StringExecFns;

verus! {

/// The selector for the three set operations. A closed enumeration: no other
/// operation is representable, and every match on it is exhaustive.
#[derive(Clone, Copy, PartialEq, Eq, Structural, Debug)]
pub enum Operation {
    Intersection,
    Union,
    Difference,
}

/// The character sequences of a sequence of owned strings.
pub open spec fn views_of(v: Seq<String>) -> Seq<Seq<char>> {
    v.map_values(|s: String| s@)
}

/// `s` with every repetition of an earlier line dropped: each line is kept at
/// its first occurrence only.
pub open spec fn dedup_first(s: Seq<Seq<char>>) -> Seq<Seq<char>>
    decreases s.len(),
{
    if s.len() == 0 {
        Seq::empty()
    } else {
        let rest = dedup_first(s.drop_last());
        if rest.contains(s.last()) {
            rest
        } else {
            rest.push(s.last())
        }
    }
}

/// The elements of `a` that are also elements of `b`, in `a`'s order.
pub open spec fn keep_in(a: Seq<Seq<char>>, b: Seq<Seq<char>>) -> Seq<Seq<char>>
    decreases a.len(),
{
    if a.len() == 0 {
        Seq::empty()
    } else if b.contains(a.last()) {
        keep_in(a.drop_last(), b).push(a.last())
    } else {
        keep_in(a.drop_last(), b)
    }
}

/// The elements of `a` that are not elements of `b`, in `a`'s order.
pub open spec fn keep_out(a: Seq<Seq<char>>, b: Seq<Seq<char>>) -> Seq<Seq<char>>
    decreases a.len(),
{
    if a.len() == 0 {
        Seq::empty()
    } else if b.contains(a.last()) {
        keep_out(a.drop_last(), b)
    } else {
        keep_out(a.drop_last(), b).push(a.last())
    }
}

/// The element sequence each operation yields: intersection and difference
/// keep `a`'s order; union lists `a`'s lines and then the lines of `b` that
/// are new.
pub open spec fn op_view(op: Operation, a: Seq<Seq<char>>, b: Seq<Seq<char>>) -> Seq<Seq<char>> {
    match op {
        Operation::Intersection => keep_in(a, b),
        Operation::Union => a + keep_out(b, a),
        Operation::Difference => keep_out(a, b),
    }
}

/// The set each operation yields.
pub open spec fn op_set(op: Operation, a: Set<Seq<char>>, b: Set<Seq<char>>) -> Set<Seq<char>> {
    match op {
        Operation::Intersection => a.intersect(b),
        Operation::Union => a.union(b),
        Operation::Difference => a.difference(b),
    }
}

/// The lines joined by a single newline character, with no trailing newline.
/// An empty sequence of lines yields the empty string.
pub open spec fn join_lines(s: Seq<Seq<char>>) -> Seq<char>
    decreases s.len(),
{
    if s.len() == 0 {
        Seq::empty()
    } else if s.len() == 1 {
        s[0]
    } else {
        join_lines(s.drop_last()) + "\n"@ + s.last()
    }
}

/// A deduplicated set of text lines, kept in order of first insertion.
pub struct LineSet {
    lines: Vec<String>,
}

impl View for LineSet {
    type V = Seq<Seq<char>>;

    closed spec fn view(&self) -> Seq<Seq<char>> {
        views_of(self.lines@)
    }
}

/// Whether some string in `v` has the same characters as `x`.
fn contains_line(v: &Vec<String>, x: &String) -> (r: bool)
    ensures
        r == views_of(v@).contains(x@),
{
    let mut i: usize = 0;
    while i < v.len()
        invariant
            i <= v.len(),
            forall|j: int| 0 <= j < i ==> views_of(v@)[j] != x@,
        decreases v.len() - i,
    {
        if v[i] == *x {
            proof {
                assert(views_of(v@)[i as int] == x@);
            }
            return true;
        }
        i += 1;
    }
    proof {
        assert(forall|j: int| 0 <= j < views_of(v@).len() ==> views_of(v@)[j] != x@);
    }
    false
}

/// Deduplication keeps each line exactly once (no duplicates remain) and
/// keeps exactly the lines of its input (the set of lines is unchanged).
pub proof fn lemma_dedup_first_props(s: Seq<Seq<char>>)
    ensures
        dedup_first(s).no_duplicates(),
        dedup_first(s).to_set() == s.to_set(),
    decreases s.len(),
{
    if s.len() == 0 {
        assert(dedup_first(s).to_set() =~= s.to_set());
    } else {
        lemma_dedup_first_props(s.drop_last());
        let rest = dedup_first(s.drop_last());
        let d = dedup_first(s);
        assert forall|x: Seq<char>| s.contains(x) implies d.contains(x) by {
            let i = choose|i: int| 0 <= i < s.len() && s[i] == x;
            if i < s.len() - 1 {
                assert(s.drop_last()[i] == x);
                assert(s.drop_last().contains(x));
                assert(rest.to_set().contains(x));
                assert(rest.contains(x));
                let j = choose|j: int| 0 <= j < rest.len() && rest[j] == x;
                assert(d[j] == x);
            } else {
                assert(x == s.last());
                if rest.contains(x) {
                    assert(d.contains(x));
                } else {
                    assert(d == rest.push(x));
                    assert(d[d.len() - 1] == x);
                }
            }
        }
        assert forall|x: Seq<char>| d.contains(x) implies s.contains(x) by {
            let i = choose|i: int| 0 <= i < d.len() && d[i] == x;
            if i < rest.len() {
                assert(rest[i] == x);
                assert(rest.to_set().contains(x));
                assert(s.drop_last().contains(x));
                let j = choose|j: int| 0 <= j < s.drop_last().len() && s.drop_last()[j] == x;
                assert(s[j] == x);
            } else {
                assert(x == s.last());
                assert(s[s.len() - 1] == x);
            }
        }
        assert(d.to_set() =~= s.to_set());
        if !rest.contains(s.last()) {
            assert forall|i: int, j: int|
                0 <= i < d.len() && 0 <= j < d.len() && i != j implies d[i] != d[j] by {
                if i < rest.len() && j < rest.len() {
                    assert(rest[i] == d[i] && rest[j] == d[j]);
                } else if i < rest.len() {
                    assert(rest.contains(rest[i]));
                } else if j < rest.len() {
                    assert(rest.contains(rest[j]));
                }
            }
        }
    }
}

/// `keep_in(a, b)` has exactly the lines common to `a` and `b`, and repeats
/// no line if `a` repeats none.
pub proof fn lemma_keep_in_props(a: Seq<Seq<char>>, b: Seq<Seq<char>>)
    ensures
        keep_in(a, b).to_set() == a.to_set().intersect(b.to_set()),
        a.no_duplicates() ==> keep_in(a, b).no_duplicates(),
        keep_in(a, b).len() <= a.len(),
    decreases a.len(),
{
    let k = keep_in(a, b);
    if a.len() == 0 {
        assert(k.to_set() =~= a.to_set().intersect(b.to_set()));
    } else {
        lemma_keep_in_props(a.drop_last(), b);
        let rest = keep_in(a.drop_last(), b);
        assert forall|x: Seq<char>| k.contains(x) implies a.contains(x) && b.contains(x) by {
            let i = choose|i: int| 0 <= i < k.len() && k[i] == x;
            if i < rest.len() {
                assert(rest[i] == x);
                assert(rest.to_set().contains(x));
                let j = choose|j: int| 0 <= j < a.drop_last().len() && a.drop_last()[j] == x;
                assert(a[j] == x);
            } else {
                assert(x == a.last());
                assert(a[a.len() - 1] == x);
            }
        }
        assert forall|x: Seq<char>| a.contains(x) && b.contains(x) implies k.contains(x) by {
            let i = choose|i: int| 0 <= i < a.len() && a[i] == x;
            if i < a.len() - 1 {
                assert(a.drop_last()[i] == x);
                assert(a.drop_last().contains(x));
                assert(rest.to_set().contains(x));
                let j = choose|j: int| 0 <= j < rest.len() && rest[j] == x;
                if b.contains(a.last()) {
                    assert(k[j] == x);
                } else {
                    assert(k == rest);
                }
            } else {
                assert(x == a.last());
                assert(k[k.len() - 1] == x);
            }
        }
        assert(k.to_set() =~= a.to_set().intersect(b.to_set()));
        if a.no_duplicates() && b.contains(a.last()) {
            assert forall|i: int, j: int|
                0 <= i < k.len() && 0 <= j < k.len() && i != j implies k[i] != k[j] by {
                if i < rest.len() && j < rest.len() {
                    assert(rest[i] == k[i] && rest[j] == k[j]);
                } else if i < rest.len() {
                    assert(rest.contains(rest[i]));
                    assert(rest.to_set().contains(k[i]));
                    assert(!a.drop_last().contains(a.last()));
                } else if j < rest.len() {
                    assert(rest.contains(rest[j]));
                    assert(rest.to_set().contains(k[j]));
                    assert(!a.drop_last().contains(a.last()));
                }
            }
        }
    }
}

/// `keep_out(a, b)` has exactly the lines of `a` that are not in `b`, and
/// repeats no line if `a` repeats none.
pub proof fn lemma_keep_out_props(a: Seq<Seq<char>>, b: Seq<Seq<char>>)
    ensures
        keep_out(a, b).to_set() == a.to_set().difference(b.to_set()),
        a.no_duplicates() ==> keep_out(a, b).no_duplicates(),
        keep_out(a, b).len() <= a.len(),
    decreases a.len(),
{
    let k = keep_out(a, b);
    if a.len() == 0 {
        assert(k.to_set() =~= a.to_set().difference(b.to_set()));
    } else {
        lemma_keep_out_props(a.drop_last(), b);
        let rest = keep_out(a.drop_last(), b);
        assert forall|x: Seq<char>| k.contains(x) implies a.contains(x) && !b.contains(x) by {
            let i = choose|i: int| 0 <= i < k.len() && k[i] == x;
            if i < rest.len() {
                assert(rest[i] == x);
                assert(rest.to_set().contains(x));
                let j = choose|j: int| 0 <= j < a.drop_last().len() && a.drop_last()[j] == x;
                assert(a[j] == x);
            } else {
                assert(x == a.last());
                assert(a[a.len() - 1] == x);
            }
        }
        assert forall|x: Seq<char>| a.contains(x) && !b.contains(x) implies k.contains(x) by {
            let i = choose|i: int| 0 <= i < a.len() && a[i] == x;
            if i < a.len() - 1 {
                assert(a.drop_last()[i] == x);
                assert(a.drop_last().contains(x));
                assert(rest.to_set().contains(x));
                let j = choose|j: int| 0 <= j < rest.len() && rest[j] == x;
                if b.contains(a.last()) {
                    assert(k == rest);
                } else {
                    assert(k[j] == x);
                }
            } else {
                assert(x == a.last());
                assert(k[k.len() - 1] == x);
            }
        }
        assert(k.to_set() =~= a.to_set().difference(b.to_set()));
        if a.no_duplicates() && !b.contains(a.last()) {
            assert forall|i: int, j: int|
                0 <= i < k.len() && 0 <= j < k.len() && i != j implies k[i] != k[j] by {
                if i < rest.len() && j < rest.len() {
                    assert(rest[i] == k[i] && rest[j] == k[j]);
                } else if i < rest.len() {
                    assert(rest.contains(rest[i]));
                    assert(rest.to_set().contains(k[i]));
                    assert(!a.drop_last().contains(a.last()));
                } else if j < rest.len() {
                    assert(rest.contains(rest[j]));
                    assert(rest.to_set().contains(k[j]));
                    assert(!a.drop_last().contains(a.last()));
                }
            }
        }
    }
}

/// `a + keep_out(b, a)` holds exactly the union of the lines of `a` and of
/// `b`, and repeats no line if neither `a` nor `b` repeats one.
pub proof fn lemma_union_props(a: Seq<Seq<char>>, b: Seq<Seq<char>>)
    ensures
        (a + keep_out(b, a)).to_set() == a.to_set().union(b.to_set()),
        a.no_duplicates() && b.no_duplicates() ==> (a + keep_out(b, a)).no_duplicates(),
{
    lemma_keep_out_props(b, a);
    let k = keep_out(b, a);
    let u = a + k;
    assert forall|x: Seq<char>| u.to_set().contains(x) implies a.to_set().union(
        b.to_set(),
    ).contains(x) by {
        let i = choose|i: int| 0 <= i < u.len() && u[i] == x;
        if i < a.len() {
            assert(a[i] == x);
        } else {
            assert(k[i - a.len()] == x);
            assert(k.to_set().contains(x));
        }
    }
    assert forall|x: Seq<char>| a.to_set().union(b.to_set()).contains(x) implies u.to_set().contains(
        x,
    ) by {
        if a.contains(x) {
            let i = choose|i: int| 0 <= i < a.len() && a[i] == x;
            assert(u[i] == x);
        } else {
            assert(b.contains(x) && !a.contains(x));
            assert(k.to_set().contains(x));
            let i = choose|i: int| 0 <= i < k.len() && k[i] == x;
            assert(u[a.len() + i] == x);
        }
    }
    assert(u.to_set() =~= a.to_set().union(b.to_set()));
    if a.no_duplicates() && b.no_duplicates() {
        assert forall|i: int, j: int| 0 <= i < a.len() && 0 <= j < k.len() implies a[i] != k[j] by {
            assert(k.contains(k[j]));
            assert(k.to_set().contains(k[j]));
            assert(a.contains(a[i]));
        }
        lemma_no_dup_in_concat(a, k);
    }
}

impl LineSet {
    /// The lines as a mathematical set.
    pub open spec fn as_set(self) -> Set<Seq<char>> {
        self@.to_set()
    }

    /// Well-formed: no line occurs twice.
    pub open spec fn wf(self) -> bool {
        self@.no_duplicates()
    }

    /// The line-set reader's deduplication step: collapses the given lines
    /// into a set, keeping each distinct line once, at its first occurrence.
    pub fn from_lines(lines: Vec<String>) -> (r: LineSet)
        ensures
            r@ == dedup_first(views_of(lines@)),
            r.as_set() == views_of(lines@).to_set(),
            r.wf(),
    {
        let mut kept: Vec<String> = Vec::new();
        let mut i: usize = 0;
        while i < lines.len()
            invariant
                i <= lines.len(),
                views_of(kept@) == dedup_first(views_of(lines@).subrange(0, i as int)),
            decreases lines.len() - i,
        {
            proof {
                let full = views_of(lines@);
                assert(full.subrange(0, i + 1).drop_last() =~= full.subrange(0, i as int));
                assert(full.subrange(0, i + 1).last() == lines@[i as int]@);
            }
            let is_new = !contains_line(&kept, &lines[i]);
            if is_new {
                let ghost prev = kept@;
                kept.push(lines[i].clone());
                proof {
                    assert(views_of(kept@) =~= views_of(prev).push(lines@[i as int]@));
                }
            }
            i += 1;
        }
        proof {
            assert(views_of(lines@).subrange(0, lines@.len() as int) =~= views_of(lines@));
            lemma_dedup_first_props(views_of(lines@));
        }
        LineSet { lines: kept }
    }

    /// How many distinct lines the set holds.
    pub fn len(&self) -> (r: usize)
        ensures
            r == self@.len(),
    {
        self.lines.len()
    }

    /// Whether the set holds a line with the given characters.
    pub fn contains(&self, line: &String) -> (r: bool)
        ensures
            r == self.as_set().contains(line@),
    {
        contains_line(&self.lines, line)
    }

    /// The stored lines, in the set's enumeration order.
    pub fn lines(&self) -> (r: &Vec<String>)
        ensures
            views_of(r@) == self@,
    {
        &self.lines
    }

    /// The lines present in both `self` and `other`.
    pub fn intersection(&self, other: &LineSet) -> (r: LineSet)
        requires
            self.wf(),
        ensures
            r@ == keep_in(self@, other@),
            r.as_set() == self.as_set().intersect(other.as_set()),
            r.wf(),
    {
        let mut kept: Vec<String> = Vec::new();
        let mut i: usize = 0;
        while i < self.lines.len()
            invariant
                i <= self.lines.len(),
                views_of(kept@) == keep_in(self@.subrange(0, i as int), other@),
            decreases self.lines.len() - i,
        {
            proof {
                assert(self@.subrange(0, i + 1).drop_last() =~= self@.subrange(0, i as int));
                assert(self@.subrange(0, i + 1).last() == self.lines@[i as int]@);
            }
            if contains_line(&other.lines, &self.lines[i]) {
                let ghost prev = kept@;
                kept.push(self.lines[i].clone());
                proof {
                    assert(views_of(kept@) =~= views_of(prev).push(self.lines@[i as int]@));
                }
            }
            i += 1;
        }
        proof {
            assert(self@.subrange(0, self@.len() as int) =~= self@);
            lemma_keep_in_props(self@, other@);
        }
        LineSet { lines: kept }
    }

    /// The lines of `self` that are not in `other`. Not symmetric: `self` is
    /// the first operand, and its lines alone can appear in the result.
    pub fn difference(&self, other: &LineSet) -> (r: LineSet)
        requires
            self.wf(),
        ensures
            r@ == keep_out(self@, other@),
            r.as_set() == self.as_set().difference(other.as_set()),
            r.wf(),
    {
        let mut kept: Vec<String> = Vec::new();
        let mut i: usize = 0;
        while i < self.lines.len()
            invariant
                i <= self.lines.len(),
                views_of(kept@) == keep_out(self@.subrange(0, i as int), other@),
            decreases self.lines.len() - i,
        {
            proof {
                assert(self@.subrange(0, i + 1).drop_last() =~= self@.subrange(0, i as int));
                assert(self@.subrange(0, i + 1).last() == self.lines@[i as int]@);
            }
            if !contains_line(&other.lines, &self.lines[i]) {
                let ghost prev = kept@;
                kept.push(self.lines[i].clone());
                proof {
                    assert(views_of(kept@) =~= views_of(prev).push(self.lines@[i as int]@));
                }
            }
            i += 1;
        }
        proof {
            assert(self@.subrange(0, self@.len() as int) =~= self@);
            lemma_keep_out_props(self@, other@);
        }
        LineSet { lines: kept }
    }

    /// The lines present in `self` or `other` (or both), each once: `self`'s
    /// lines first, then the lines of `other` that are new.
    pub fn union(&self, other: &LineSet) -> (r: LineSet)
        requires
            self.wf(),
            other.wf(),
        ensures
            r@ == self@ + keep_out(other@, self@),
            r.as_set() == self.as_set().union(other.as_set()),
            r.wf(),
    {
        let mut kept: Vec<String> = Vec::new();
        let mut i: usize = 0;
        while i < self.lines.len()
            invariant
                i <= self.lines.len(),
                views_of(kept@) == self@.subrange(0, i as int),
            decreases self.lines.len() - i,
        {
            let ghost prev = kept@;
            kept.push(self.lines[i].clone());
            proof {
                assert(views_of(kept@) =~= views_of(prev).push(self.lines@[i as int]@));
                assert(self@.subrange(0, i + 1) =~= self@.subrange(0, i as int).push(
                    self.lines@[i as int]@,
                ));
            }
            i += 1;
        }
        proof {
            assert(self@.subrange(0, self@.len() as int) =~= self@);
        }
        let mut i: usize = 0;
        while i < other.lines.len()
            invariant
                i <= other.lines.len(),
                views_of(kept@) == self@ + keep_out(other@.subrange(0, i as int), self@),
            decreases other.lines.len() - i,
        {
            proof {
                assert(other@.subrange(0, i + 1).drop_last() =~= other@.subrange(0, i as int));
                assert(other@.subrange(0, i + 1).last() == other.lines@[i as int]@);
            }
            if !contains_line(&self.lines, &other.lines[i]) {
                let ghost prev = kept@;
                kept.push(other.lines[i].clone());
                proof {
                    assert(views_of(kept@) =~= views_of(prev).push(other.lines@[i as int]@));
                    assert(views_of(prev).push(other.lines@[i as int]@) =~= self@ + keep_out(
                        other@.subrange(0, i as int),
                        self@,
                    ).push(other.lines@[i as int]@));
                }
            }
            i += 1;
        }
        proof {
            assert(other@.subrange(0, other@.len() as int) =~= other@);
            lemma_union_props(self@, other@);
        }
        LineSet { lines: kept }
    }

    /// Applies the selected operation to `a` and `b`; `a` is the first
    /// operand (the one difference subtracts from).
    pub fn apply(op: Operation, a: &LineSet, b: &LineSet) -> (r: LineSet)
        requires
            a.wf(),
            b.wf(),
        ensures
            r@ == op_view(op, a@, b@),
            r.as_set() == op_set(op, a.as_set(), b.as_set()),
            r.wf(),
    {
        match op {
            Operation::Intersection => a.intersection(b),
            Operation::Union => a.union(b),
            Operation::Difference => a.difference(b),
        }
    }

    /// The result formatter: every line on its own line, joined by single
    /// newlines, with no trailing newline. An empty set yields the empty
    /// string.
    pub fn format(&self) -> (r: String)
        ensures
            r@ == join_lines(self@),
    {
        let mut out = String::new();
        let mut i: usize = 0;
        while i < self.lines.len()
            invariant
                i <= self.lines.len(),
                out@ == join_lines(self@.subrange(0, i as int)),
            decreases self.lines.len() - i,
        {
            proof {
                assert(self@.subrange(0, i + 1).drop_last() =~= self@.subrange(0, i as int));
                assert(self@.subrange(0, i + 1).last() == self.lines@[i as int]@);
                if i == 0 {
                    assert(self@.subrange(0, 1)[0] == self.lines@[0]@);
                }
            }
            if i > 0 {
                out.append("\n");
            }
            out.append(self.lines[i].as_str());
            i += 1;
        }
        proof {
            assert(self@.subrange(0, self@.len() as int) =~= self@);
        }
        out
    }
}

} // verus!
