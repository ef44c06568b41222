//! The tracking cursor of a simulation: which elements a `step` or a
//! `track` applies next, and the breakpoints that stop a `track`.
use vstd::prelude::*;

verus! {

/// Elements `start..end` are to be applied to the output beam; when
/// `restart` holds, the output beam is first reset to the input beam.
#[derive(Debug, Clone, Copy, PartialEq, Eq, Structural)]
pub struct Segment {
    pub start: usize,
    pub end: usize,
    pub restart: bool,
}

/// Where tracking stands in a lattice of `n_elements` elements.
#[derive(Debug, Clone)]
pub struct TrackState {
    /// Index of the next element to apply.
    pub current: usize,
    pub n_elements: usize,
    /// Element indices at which `track` stops before applying the element.
    pub breakpoints: Vec<usize>,
    /// Breakpoints already stopped at once since the last reset.
    pub breakpoints_passed: Vec<usize>,
}

/// The first index from `k` on at which a `track` stops: a breakpoint not
/// yet passed, or the end of the lattice.
pub open spec fn stop_from(bps: Seq<usize>, passed: Seq<usize>, k: nat, n: nat) -> nat
    decreases n - k,
{
    if k >= n {
        n
    } else if bps.contains(k as usize) && !passed.contains(k as usize) {
        k
    } else {
        stop_from(bps, passed, k + 1, n)
    }
}

pub proof fn lemma_stop_from_bounds(bps: Seq<usize>, passed: Seq<usize>, k: nat, n: nat)
    requires
        k <= n,
    ensures
        k <= stop_from(bps, passed, k, n) <= n,
        stop_from(bps, passed, k, n) < n ==> bps.contains(stop_from(bps, passed, k, n) as usize)
            && !passed.contains(stop_from(bps, passed, k, n) as usize),
    decreases n - k,
{
    if k < n && !(bps.contains(k as usize) && !passed.contains(k as usize)) {
        lemma_stop_from_bounds(bps, passed, k + 1, n);
    }
}

impl TrackState {
    pub open spec fn wf(&self) -> bool {
        self.current <= self.n_elements
    }

    /// A cursor at the start of a lattice of `n_elements` elements, with no
    /// breakpoints.
    pub fn new(n_elements: usize) -> (r: TrackState)
        ensures
            r.wf(),
            r.current == 0,
            r.n_elements == n_elements,
            r.breakpoints@ == Seq::<usize>::empty(),
            r.breakpoints_passed@ == Seq::<usize>::empty(),
    {
        TrackState { current: 0, n_elements, breakpoints: Vec::new(), breakpoints_passed: Vec::new() }
    }

    /// The one element to apply next, or `None` when every element has been
    /// applied. Breakpoints do not stop a step.
    pub fn step(&mut self) -> (r: Option<Segment>)
        requires
            old(self).wf(),
        ensures
            final(self).wf(),
            final(self).n_elements == old(self).n_elements,
            final(self).breakpoints@ == old(self).breakpoints@,
            final(self).breakpoints_passed@ == old(self).breakpoints_passed@,
            old(self).current == old(self).n_elements ==> r is None && final(self).current
                == old(self).current,
            old(self).current < old(self).n_elements ==> r == Some(
                Segment {
                    start: old(self).current,
                    end: (old(self).current + 1) as usize,
                    restart: old(self).current == 0,
                },
            ) && final(self).current == old(self).current + 1,
    {
        if self.current == self.n_elements {
            return None;
        }
        let seg = Segment { start: self.current, end: self.current + 1, restart: self.current == 0 };
        self.current += 1;
        Some(seg)
    }

    /// The elements to apply next: from the cursor up to the first
    /// breakpoint not yet passed (which is then marked passed), or to the
    /// end. `None` when every element has been applied.
    pub fn track(&mut self) -> (r: Option<Segment>)
        requires
            old(self).wf(),
        ensures
            final(self).wf(),
            final(self).n_elements == old(self).n_elements,
            final(self).breakpoints@ == old(self).breakpoints@,
            old(self).current == old(self).n_elements ==> r is None && final(self).current
                == old(self).current && final(self).breakpoints_passed@
                == old(self).breakpoints_passed@,
            old(self).current < old(self).n_elements ==> {
                let e = stop_from(
                    old(self).breakpoints@,
                    old(self).breakpoints_passed@,
                    old(self).current as nat,
                    old(self).n_elements as nat,
                );
                &&& r == Some(
                    Segment {
                        start: old(self).current,
                        end: e as usize,
                        restart: old(self).current == 0,
                    },
                )
                &&& final(self).current == e
                &&& final(self).breakpoints_passed@ == if e < old(self).n_elements {
                    old(self).breakpoints_passed@.push(e as usize)
                } else {
                    old(self).breakpoints_passed@
                }
            },
    {
        if self.current == self.n_elements {
            return None;
        }
        let start = self.current;
        let ghost bps = self.breakpoints@;
        let ghost passed = self.breakpoints_passed@;
        let ghost n = self.n_elements as nat;
        proof {
            lemma_stop_from_bounds(bps, passed, start as nat, n);
        }
        while self.current < self.n_elements
            invariant
                start <= self.current <= self.n_elements,
                start == old(self).current,
                n == self.n_elements,
                n == old(self).n_elements,
                bps == self.breakpoints@,
                bps == old(self).breakpoints@,
                passed == self.breakpoints_passed@,
                passed == old(self).breakpoints_passed@,
                stop_from(bps, passed, start as nat, n) == stop_from(bps, passed, self.current as nat, n),
            decreases self.n_elements - self.current,
        {
            if contains(&self.breakpoints, self.current) && !contains(
                &self.breakpoints_passed,
                self.current,
            ) {
                let k = self.current;
                self.breakpoints_passed.push(k);
                return Some(Segment { start, end: k, restart: start == 0 });
            }
            self.current += 1;
        }
        Some(Segment { start, end: self.current, restart: start == 0 })
    }

    /// Removes every breakpoint and returns the cursor to the first element.
    pub fn reset(&mut self)
        ensures
            final(self).wf(),
            final(self).current == 0,
            final(self).n_elements == old(self).n_elements,
            final(self).breakpoints@ == Seq::<usize>::empty(),
            final(self).breakpoints_passed@ == Seq::<usize>::empty(),
    {
        self.current = 0;
        self.breakpoints = Vec::new();
        self.breakpoints_passed = Vec::new();
    }

    /// Makes `track` stop before element `index`.
    pub fn add_breakpoint(&mut self, index: usize)
        requires
            old(self).wf(),
        ensures
            final(self).wf(),
            final(self).current == old(self).current,
            final(self).n_elements == old(self).n_elements,
            final(self).breakpoints@ == old(self).breakpoints@.push(index),
            final(self).breakpoints_passed@ == old(self).breakpoints_passed@,
    {
        self.breakpoints.push(index);
    }
}

/// Whether `v` holds `x`.
pub fn contains(v: &Vec<usize>, x: usize) -> (r: bool)
    ensures
        r == v@.contains(x),
{
    let mut i: usize = 0;
    while i < v.len()
        invariant
            i <= v@.len(),
            forall|k: int| 0 <= k < i ==> v@[k] != x,
        decreases v@.len() - i,
    {
        if v[i] == x {
            assert(v@[i as int] == x);
            return true;
        }
        i += 1;
    }
    false
}

/// The index of the first element whose name is `searchterm`.
pub fn find_element_by_name(names: &Vec<String>, searchterm: &String) -> (r: Option<usize>)
    ensures
        match r {
            Some(k) => k < names@.len() && names@[k as int]@ == searchterm@ && forall|j: int|
                0 <= j < k ==> names@[j]@ != searchterm@,
            None => forall|j: int| 0 <= j < names@.len() ==> names@[j]@ != searchterm@,
        },
{
    let mut i: usize = 0;
    while i < names.len()
        invariant
            i <= names@.len(),
            forall|j: int| 0 <= j < i ==> names@[j]@ != searchterm@,
        decreases names@.len() - i,
    {
        if names[i] == *searchterm {
            return Some(i);
        }
        i += 1;
    }
    None
}

/// A `track` that stops at a breakpoint does not stop there again: the
/// next `track` starts at that element and goes past it.
pub proof fn lemma_breakpoint_stops_once(bps: Seq<usize>, passed: Seq<usize>, current: nat, n: nat)
    requires
        current <= n,
        stop_from(bps, passed, current, n) < n,
    ensures
        ({
            let b = stop_from(bps, passed, current, n);
            stop_from(bps, passed.push(b as usize), b, n) > b
        }),
{
    let b = stop_from(bps, passed, current, n);
    lemma_stop_from_bounds(bps, passed, current, n);
    let marked = passed.push(b as usize);
    assert(marked.contains(b as usize)) by {
        assert(marked[marked.len() - 1] == b as usize);
    }
    lemma_stop_from_bounds(bps, marked, b + 1, n);
}

} // verus!
