//! Small utilities over sequences of elements.
use vstd::prelude::*;
use vstd::std_specs::cmp::PartialEqSpec;

verus! {

/// Whether all elements of a collection differ from one another.
pub trait Unique {
    /// No element equals a later one.
    spec fn spec_all_unique(&self) -> bool;

    /// The elements' `==` behaves as its specification says.
    spec fn eq_is_specified(&self) -> bool;

    fn all_unique(&self) -> (r: bool)
        ensures
            self.eq_is_specified() ==> r == self.spec_all_unique(),
    ;
}

impl<T: PartialEq> Unique for [T] {
    open spec fn spec_all_unique(&self) -> bool {
        forall|i: int, j: int| #![trigger self@[j], self@[i]] 0 <= i < j < self@.len() ==> !self@[j].eq_spec(&self@[i])
    }

    open spec fn eq_is_specified(&self) -> bool {
        T::obeys_eq_spec()
    }

    fn all_unique(&self) -> (r: bool) {
        // Quadratic, as there is no set to remember what was seen.
        let n = self.len();
        let mut i: usize = 0;
        while i < n
            invariant
                n == self@.len(),
                i <= n,
                T::obeys_eq_spec() ==> forall|a: int, b: int| #![trigger self@[b], self@[a]] 0 <= a < i && a < b < n ==> !self@[b].eq_spec(&self@[a]),
            decreases n - i,
        {
            let mut j: usize = i + 1;
            while j < n
                invariant
                    n == self@.len(),
                    i < n,
                    i < j <= n,
                    T::obeys_eq_spec() ==> forall|a: int, b: int| #![trigger self@[b], self@[a]] 0 <= a < i && a < b < n ==> !self@[b].eq_spec(&self@[a]),
                    T::obeys_eq_spec() ==> forall|b: int| i < b < j ==> !(#[trigger] self@[b]).eq_spec(&self@[i as int]),
                decreases n - j,
            {
                if self[j].eq(&self[i]) {
                    return false;
                }
                j = j + 1;
            }
            i = i + 1;
        }
        true
    }
}

/// `sequence` occurs in `input` from position `p`.
pub open spec fn occurs_at<T: PartialEq>(input: Seq<T>, sequence: Seq<T>, p: int) -> bool {
    &&& 0 <= p
    &&& p + sequence.len() <= input.len()
    &&& forall|k: int| 0 <= k < sequence.len() ==> (#[trigger] input[p + k]).eq_spec(&sequence[k])
}

/// The first position at or after `i` where `sequence` occurs in `input`, or
/// the length of `input` when it occurs nowhere there.
pub open spec fn first_occurrence_from<T: PartialEq>(input: Seq<T>, sequence: Seq<T>, i: int) -> int
    decreases input.len() - i,
{
    if i < 0 || i >= input.len() {
        input.len() as int
    } else if occurs_at(input, sequence, i) {
        i
    } else {
        first_occurrence_from(input, sequence, i + 1)
    }
}

/// The first position where `sequence` occurs in `input`, or the length of
/// `input` when it never does.
pub open spec fn first_occurrence<T: PartialEq>(input: Seq<T>, sequence: Seq<T>) -> int {
    first_occurrence_from(input, sequence, 0)
}

/// Iterates over elements until a sequence is reached (stops before it).
pub trait UntilSequence<T: PartialEq>: Sized {
    /// The elements to iterate over, in order.
    spec fn elements(&self) -> Seq<T>;

    fn until_sequence(self, sequence: &[T]) -> (r: UntilSequenceIterator<T>)
        ensures
            r.wf(),
            r.input() == self.elements(),
            r.position() == 0,
            T::obeys_eq_spec() ==> r.end() == first_occurrence(self.elements(), sequence@),
    ;
}

/// The elements of `inner` that come before the first occurrence of a
/// sequence in it (all of them when it does not occur).
pub struct UntilSequenceIterator<T> {
    inner: Vec<T>,
    position: usize,
    end: usize,
}

impl<T: Copy + PartialEq> UntilSequence<T> for Vec<T> {
    open spec fn elements(&self) -> Seq<T> {
        self@
    }

    fn until_sequence(self, sequence: &[T]) -> (r: UntilSequenceIterator<T>) {
        let n = self.len();
        let m = sequence.len();
        let mut p: usize = 0;
        let mut found = false;
        while p < n && !found
            invariant
                n == self@.len(),
                m == sequence@.len(),
                p <= n,
                T::obeys_eq_spec() ==> first_occurrence_from(self@, sequence@, p as int) == first_occurrence(self@, sequence@),
                found ==> p < n && (T::obeys_eq_spec() ==> occurs_at(self@, sequence@, p as int)),
            decreases n - p + (if found { 0int } else { 1int }),
        {
            if m <= n - p {
                let mut k: usize = 0;
                let mut matching = true;
                while k < m && matching
                    invariant
                        n == self@.len(),
                        m == sequence@.len(),
                        p + m <= n,
                        k <= m,
                        matching ==> (T::obeys_eq_spec() ==> forall|j: int| 0 <= j < k ==> (#[trigger] self@[p + j]).eq_spec(&sequence@[j])),
                        !matching ==> (T::obeys_eq_spec() ==> !occurs_at(self@, sequence@, p as int)),
                    decreases m - k + (if matching { 1int } else { 0int }),
                {
                    if !self[p + k].eq(&sequence[k]) {
                        matching = false;
                    } else {
                        k = k + 1;
                    }
                }
                if matching {
                    found = true;
                } else {
                    p = p + 1;
                }
            } else {
                p = p + 1;
            }
        }
        UntilSequenceIterator { inner: self, position: 0, end: p }
    }
}

impl<T> UntilSequenceIterator<T> {
    pub closed spec fn input(&self) -> Seq<T> {
        self.inner@
    }

    /// How many elements were handed out.
    pub closed spec fn position(&self) -> int {
        self.position as int
    }

    /// Where the elements to hand out end: the first occurrence of the
    /// sequence.
    pub closed spec fn end(&self) -> int {
        self.end as int
    }

    pub closed spec fn wf(&self) -> bool {
        self.position <= self.end <= self.inner@.len()
    }
}

impl<T: Copy> UntilSequenceIterator<T> {
    /// The next element before the sequence, or `None` once the sequence is
    /// reached or the input is used up.
    pub fn next(&mut self) -> (r: Option<T>)
        requires
            old(self).wf(),
        ensures
            final(self).wf(),
            final(self).input() == old(self).input(),
            final(self).end() == old(self).end(),
            old(self).position() < old(self).end() ==> {
                &&& r == Some(old(self).input()[old(self).position()])
                &&& final(self).position() == old(self).position() + 1
            },
            old(self).position() >= old(self).end() ==> r is None && final(self).position() == old(self).position(),
    {
        if self.position < self.end {
            let x = self.inner[self.position];
            self.position = self.position + 1;
            Some(x)
        } else {
            None
        }
    }
}

} // verus!
