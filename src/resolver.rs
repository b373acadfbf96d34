//! The conflict policy: local content wins over remote content, which wins
//! over the common ancestor's content.
use vstd::prelude::*;

verus! {

/// Which of the three staging slots of one conflicting path are present.
#[derive(Clone, Copy, Debug, PartialEq, Eq, Structural)]
pub struct Slots {
    pub ours: bool,
    pub theirs: bool,
    pub ancestor: bool,
}

/// The slot whose entry is staged for a conflicting path.
#[derive(Clone, Copy, Debug, PartialEq, Eq, Structural)]
pub enum Pick {
    Ours,
    Theirs,
    Ancestor,
}

/// The winning slot under the precedence ours > theirs > ancestor, if any
/// slot is present.
pub open spec fn pick_spec(s: Slots) -> Option<Pick> {
    if s.ours {
        Some(Pick::Ours)
    } else if s.theirs {
        Some(Pick::Theirs)
    } else if s.ancestor {
        Some(Pick::Ancestor)
    } else {
        None
    }
}

/// The slot chosen by the pass numbered `pass` (1, 2 or 3).
pub open spec fn pass_pick(pass: u8) -> Pick {
    if pass == 1 {
        Pick::Ours
    } else if pass == 2 {
        Pick::Theirs
    } else {
        Pick::Ancestor
    }
}

pub open spec fn valid_pass(pass: u8) -> bool {
    1 <= pass <= 3
}

/// The pass that resolves a conflict: 1 when ours is present, 2 when only
/// theirs and maybe the ancestor are, 3 when only the ancestor is, and 4
/// (no pass) when no slot is present.
pub open spec fn rank(s: Slots) -> u8 {
    if s.ours {
        1
    } else if s.theirs {
        2
    } else if s.ancestor {
        3
    } else {
        4
    }
}

/// A conflict is handled by the pass whose slot wins for it.
pub open spec fn in_pass(s: Slots, pass: u8) -> bool {
    rank(s) == pass
}

/// How many of the first `n` conflicts the passes have reached by the time
/// pass `pass` stands at position `at`: all those of earlier passes, and
/// those of this pass before `at`.
pub open spec fn handled(cs: Seq<Slots>, pass: u8, at: int, n: int) -> nat
    decreases n,
{
    if n <= 0 {
        0
    } else {
        handled(cs, pass, at, n - 1) + (if rank(cs[n - 1]) < pass || (rank(cs[n - 1]) == pass
            && n - 1 < at) {
            1nat
        } else {
            0nat
        })
    }
}

pub proof fn lemma_handled_le(cs: Seq<Slots>, pass: u8, at: int, n: int)
    requires
        0 <= n,
    ensures
        handled(cs, pass, at, n) <= n,
    decreases n,
{
    if n > 0 {
        lemma_handled_le(cs, pass, at, n - 1);
    }
}

pub proof fn lemma_handled_mono(cs: Seq<Slots>, pass: u8, at: int, at2: int, n: int)
    requires
        at <= at2,
    ensures
        handled(cs, pass, at, n) <= handled(cs, pass, at2, n),
    decreases n,
{
    if n > 0 {
        lemma_handled_mono(cs, pass, at, at2, n - 1);
    }
}

pub proof fn lemma_handled_step(cs: Seq<Slots>, pass: u8, at: int, n: int)
    requires
        0 <= at < n,
        rank(cs[at]) == pass,
    ensures
        handled(cs, pass, at + 1, n) == handled(cs, pass, at, n) + 1,
    decreases n,
{
    if n - 1 > at {
        lemma_handled_step(cs, pass, at, n - 1);
    } else {
        lemma_handled_same(cs, pass, at, at + 1, n - 1);
    }
}

proof fn lemma_handled_same(cs: Seq<Slots>, pass: u8, at: int, at2: int, n: int)
    requires
        n <= at,
        n <= at2,
    ensures
        handled(cs, pass, at, n) == handled(cs, pass, at2, n),
    decreases n,
{
    if n > 0 {
        lemma_handled_same(cs, pass, at, at2, n - 1);
    }
}

pub proof fn lemma_handled_next_pass(cs: Seq<Slots>, pass: u8, at: int, n: int)
    requires
        n <= at,
        pass < 255,
    ensures
        handled(cs, pass, at, n) == handled(cs, (pass + 1) as u8, 0, n),
    decreases n,
{
    if n > 0 {
        lemma_handled_next_pass(cs, pass, at, n - 1);
    }
}

/// The first position at or after `from` whose conflict belongs to `pass`,
/// or the length of `cs` when there is none.
pub open spec fn next_in_pass(cs: Seq<Slots>, pass: u8, from: int) -> int
    decreases cs.len() - from,
{
    if from >= cs.len() {
        cs.len() as int
    } else if in_pass(cs[from], pass) {
        from
    } else {
        next_in_pass(cs, pass, from + 1)
    }
}

pub proof fn lemma_next_in_pass_bounds(cs: Seq<Slots>, pass: u8, from: int)
    requires
        0 <= from,
    ensures
        from < cs.len() ==> from <= next_in_pass(cs, pass, from),
        from >= cs.len() ==> next_in_pass(cs, pass, from) == cs.len(),
        next_in_pass(cs, pass, from) <= cs.len(),
        next_in_pass(cs, pass, from) < cs.len() ==> in_pass(cs[next_in_pass(cs, pass, from)], pass),
        forall|k: int| from <= k < next_in_pass(cs, pass, from) ==> !in_pass(#[trigger] cs[k], pass),
    decreases cs.len() - from,
{
    if from < cs.len() && !in_pass(cs[from], pass) {
        lemma_next_in_pass_bounds(cs, pass, from + 1);
    }
}

/// Chooses the entry that resolves one conflict.
pub fn pick_for(s: Slots) -> (r: Option<Pick>)
    ensures
        r == pick_spec(s),
        s.ours ==> r == Some(Pick::Ours),
        !s.ours && s.theirs ==> r == Some(Pick::Theirs),
        !s.ours && !s.theirs && s.ancestor ==> r == Some(Pick::Ancestor),
        r is None <==> !s.ours && !s.theirs && !s.ancestor,
{
    if s.ours {
        Some(Pick::Ours)
    } else if s.theirs {
        Some(Pick::Theirs)
    } else if s.ancestor {
        Some(Pick::Ancestor)
    } else {
        None
    }
}

/// The pass that resolves a conflict.
pub fn pass_of(s: Slots) -> (r: u8)
    ensures
        r == rank(s),
{
    if s.ours {
        1
    } else if s.theirs {
        2
    } else if s.ancestor {
        3
    } else {
        4
    }
}

/// The slot that pass `pass` stages.
pub fn slot_of_pass(pass: u8) -> (r: Pick)
    requires
        valid_pass(pass),
    ensures
        r == pass_pick(pass),
{
    if pass == 1 {
        Pick::Ours
    } else if pass == 2 {
        Pick::Theirs
    } else {
        Pick::Ancestor
    }
}

/// Finds the next conflict, at or after `from`, that pass `pass` resolves.
pub fn find_in_pass(cs: &Vec<Slots>, pass: u8, from: usize) -> (r: usize)
    requires
        valid_pass(pass),
    ensures
        r as int == next_in_pass(cs@, pass, from as int),
{
    let mut i: usize = from;
    while i < cs.len()
        invariant
            i >= from,
            next_in_pass(cs@, pass, i as int) == next_in_pass(cs@, pass, from as int),
        decreases cs.len() - i,
    {
        if pass_of(cs[i]) == pass {
            return i;
        }
        i = i + 1;
    }
    cs.len()
}

} // verus!
