use vstd::prelude::*;

use crate::node::{Symbol, Target};

verus! {

/// The target architecture of an item. Every item is compiled for the
/// machine the compiler runs on.
pub fn target(symbol: &Symbol) -> (r: Option<Target>)
    ensures
        r == Some(Target::Host),
{
    Some(Target::Host)
}

} // verus!

verus! {

/// A node of a function body, by the nodes it is made of. A node names
/// its parts by their positions in the body's list of nodes.
#[derive(Debug)]
pub enum ValueNode {
    Block(Vec<usize>),
    Let(Option<usize>),
    Assign(usize, usize),
    While(usize, usize),
    /// Branches, each a condition and the value taken when it holds.
    When(Vec<(usize, usize)>),
    Cast(usize),
    Return(Option<usize>),
    Compile(usize),
    Inline(usize),
    Call(Vec<usize>),
    Field(usize),
    Create(Vec<usize>),
    Slice(usize, Option<usize>, Option<usize>),
    Index(usize, usize),
    Compound(usize, usize),
    Binary(usize, usize),
    Unary(usize),
    Continue,
    Break,
    /// A node with no parts: a literal, a variable, a register or a path.
    Leaf,
}

/// A function body: its nodes, and the position of the node that is the
/// whole body.
#[derive(Debug)]
pub struct Value {
    pub nodes: Vec<ValueNode>,
    pub root: usize,
}

/// A `break` or `continue` that is not enclosed in a loop, by the position
/// of its node.
#[derive(Debug, Clone, Copy, PartialEq, Eq, Structural)]
pub enum Misplaced {
    Break(usize),
    Continue(usize),
}

/// Whether every part of the node at `index` is a node ranked below it.
pub open spec fn parts_ranked(nodes: Seq<ValueNode>, rank: spec_fn(int) -> nat, node: ValueNode, index: int) -> bool {
    match node {
        ValueNode::Block(parts) => forall|j: int| 0 <= j < parts.len() ==> below(nodes, rank, parts@[j] as int, index),
        ValueNode::Let(part) => part matches Some(p) ==> below(nodes, rank, p as int, index),
        ValueNode::Assign(a, b) => below(nodes, rank, a as int, index) && below(nodes, rank, b as int, index),
        ValueNode::While(a, b) => below(nodes, rank, a as int, index) && below(nodes, rank, b as int, index),
        ValueNode::When(branches) => forall|j: int|
            0 <= j < branches.len() ==> below(nodes, rank, branches@[j].0 as int, index) && below(
                nodes,
                rank,
                branches@[j].1 as int,
                index,
            ),
        ValueNode::Cast(a) => below(nodes, rank, a as int, index),
        ValueNode::Return(part) => part matches Some(p) ==> below(nodes, rank, p as int, index),
        ValueNode::Compile(a) => below(nodes, rank, a as int, index),
        ValueNode::Inline(a) => below(nodes, rank, a as int, index),
        ValueNode::Call(parts) => forall|j: int| 0 <= j < parts.len() ==> below(nodes, rank, parts@[j] as int, index),
        ValueNode::Field(a) => below(nodes, rank, a as int, index),
        ValueNode::Create(parts) => forall|j: int| 0 <= j < parts.len() ==> below(nodes, rank, parts@[j] as int, index),
        ValueNode::Slice(a, start, end) => below(nodes, rank, a as int, index) && (start matches Some(s)
            ==> below(nodes, rank, s as int, index)) && (end matches Some(e) ==> below(nodes, rank, e as int, index)),
        ValueNode::Index(a, b) => below(nodes, rank, a as int, index) && below(nodes, rank, b as int, index),
        ValueNode::Compound(a, b) => below(nodes, rank, a as int, index) && below(nodes, rank, b as int, index),
        ValueNode::Binary(a, b) => below(nodes, rank, a as int, index) && below(nodes, rank, b as int, index),
        ValueNode::Unary(a) => below(nodes, rank, a as int, index),
        _ => true,
    }
}

/// Whether `part` is a node of the body ranked below the node at `index`.
pub open spec fn below(nodes: Seq<ValueNode>, rank: spec_fn(int) -> nat, part: int, index: int) -> bool {
    0 <= part < nodes.len() && rank(part) < rank(index)
}

/// Whether `rank` ranks every node above each of its parts, all of which
/// are nodes of the body. Such a ranking exists exactly when no node is
/// part of itself, directly or through other nodes.
pub open spec fn ranked(nodes: Seq<ValueNode>, rank: spec_fn(int) -> nat) -> bool {
    forall|i: int| 0 <= i < nodes.len() ==> parts_ranked(nodes, rank, #[trigger] nodes[i], i)
}

/// A ranking of the nodes of a well-formed body.
pub open spec fn ranking(nodes: Seq<ValueNode>) -> spec_fn(int) -> nat {
    choose|rank: spec_fn(int) -> nat| ranked(nodes, rank)
}

impl Value {
    /// The root is a node, every part of a node is a node, and no node is
    /// part of itself, directly or through other nodes: the nodes can be
    /// ranked so that every node ranks above its parts.
    pub open spec fn well_formed(&self) -> bool {
        &&& self.root < self.nodes.len()
        &&& exists|rank: spec_fn(int) -> nat| ranked(self.nodes@, rank)
    }
}

/// The reports of the first check, or, where it reports nothing, those of
/// the second: the second check runs only once the first has passed.
pub open spec fn then(first: Seq<Misplaced>, second: Seq<Misplaced>) -> Seq<Misplaced> {
    if first.len() > 0 {
        first
    } else {
        second
    }
}

/// The misplaced jumps within the node at `index`, in the order they are
/// found; `looped` says whether the node is enclosed in a loop. The parts
/// of blocks, calls, structure literals and branches are all checked; the
/// parts of other nodes are checked in order until one reports. Only the
/// body of a loop counts as enclosed in it.
pub open spec fn misplaced(nodes: Seq<ValueNode>, rank: spec_fn(int) -> nat, index: int, looped: bool) -> Seq<Misplaced>
    decreases rank(index), 1nat,
{
    if 0 <= index < nodes.len() {
        match nodes[index] {
            ValueNode::Block(parts) => misplaced_all(nodes, rank, index, parts@, looped),
            ValueNode::Let(part) => match part {
                Some(p) => if below(nodes, rank, p as int, index) {
                    misplaced(nodes, rank, p as int, looped)
                } else {
                    Seq::empty()
                },
                None => Seq::empty(),
            },
            ValueNode::Assign(a, b) => if below(nodes, rank, a as int, index) && below(nodes, rank, b as int, index) {
                then(misplaced(nodes, rank, a as int, looped), misplaced(nodes, rank, b as int, looped))
            } else {
                Seq::empty()
            },
            ValueNode::While(a, b) => if below(nodes, rank, a as int, index) && below(nodes, rank, b as int, index) {
                then(misplaced(nodes, rank, a as int, looped), misplaced(nodes, rank, b as int, true))
            } else {
                Seq::empty()
            },
            ValueNode::When(branches) => misplaced_branches(nodes, rank, index, branches@, looped),
            ValueNode::Cast(a) => if below(nodes, rank, a as int, index) {
                misplaced(nodes, rank, a as int, looped)
            } else {
                Seq::empty()
            },
            ValueNode::Return(part) => match part {
                Some(p) => if below(nodes, rank, p as int, index) {
                    misplaced(nodes, rank, p as int, looped)
                } else {
                    Seq::empty()
                },
                None => Seq::empty(),
            },
            ValueNode::Compile(a) => if below(nodes, rank, a as int, index) {
                misplaced(nodes, rank, a as int, looped)
            } else {
                Seq::empty()
            },
            ValueNode::Inline(a) => if below(nodes, rank, a as int, index) {
                misplaced(nodes, rank, a as int, looped)
            } else {
                Seq::empty()
            },
            ValueNode::Call(parts) => misplaced_all(nodes, rank, index, parts@, looped),
            ValueNode::Field(a) => if below(nodes, rank, a as int, index) {
                misplaced(nodes, rank, a as int, looped)
            } else {
                Seq::empty()
            },
            ValueNode::Create(parts) => misplaced_all(nodes, rank, index, parts@, looped),
            ValueNode::Slice(a, start, end) => if below(nodes, rank, a as int, index) && (start matches Some(s) ==> below(nodes, rank, s as int, index))
                && (end matches Some(e) ==> below(nodes, rank, e as int, index)) {
                then(
                    misplaced(nodes, rank, a as int, looped),
                    then(
                        match start {
                            Some(s) => misplaced(nodes, rank, s as int, looped),
                            None => Seq::empty(),
                        },
                        match end {
                            Some(e) => misplaced(nodes, rank, e as int, looped),
                            None => Seq::empty(),
                        },
                    ),
                )
            } else {
                Seq::empty()
            },
            ValueNode::Index(a, b) => if below(nodes, rank, a as int, index) && below(nodes, rank, b as int, index) {
                then(misplaced(nodes, rank, a as int, looped), misplaced(nodes, rank, b as int, looped))
            } else {
                Seq::empty()
            },
            ValueNode::Compound(a, b) => if below(nodes, rank, a as int, index) && below(nodes, rank, b as int, index) {
                then(misplaced(nodes, rank, a as int, looped), misplaced(nodes, rank, b as int, looped))
            } else {
                Seq::empty()
            },
            ValueNode::Binary(a, b) => if below(nodes, rank, a as int, index) && below(nodes, rank, b as int, index) {
                then(misplaced(nodes, rank, a as int, looped), misplaced(nodes, rank, b as int, looped))
            } else {
                Seq::empty()
            },
            ValueNode::Unary(a) => if below(nodes, rank, a as int, index) {
                misplaced(nodes, rank, a as int, looped)
            } else {
                Seq::empty()
            },
            ValueNode::Continue => if looped {
                Seq::empty()
            } else {
                seq![Misplaced::Continue(index as usize)]
            },
            ValueNode::Break => if looped {
                Seq::empty()
            } else {
                seq![Misplaced::Break(index as usize)]
            },
            ValueNode::Leaf => Seq::empty(),
        }
    } else {
        Seq::empty()
    }
}

/// The misplaced jumps within each of the parts of the node at `index`,
/// one part after another.
pub open spec fn misplaced_all(nodes: Seq<ValueNode>, rank: spec_fn(int) -> nat, index: int, parts: Seq<usize>, looped: bool) -> Seq<Misplaced>
    decreases rank(index), 0nat, parts.len(),
{
    if parts.len() == 0 {
        Seq::empty()
    } else {
        let part = parts.last() as int;
        misplaced_all(nodes, rank, index, parts.drop_last(), looped) + if below(nodes, rank, part, index) {
            misplaced(nodes, rank, part, looped)
        } else {
            Seq::empty()
        }
    }
}

/// The misplaced jumps within each branch of the node at `index`, one
/// branch after another: in a branch, within its value, or, where there
/// are none, within its condition.
pub open spec fn misplaced_branches(
    nodes: Seq<ValueNode>, rank: spec_fn(int) -> nat,
    index: int,
    branches: Seq<(usize, usize)>,
    looped: bool,
) -> Seq<Misplaced>
    decreases rank(index), 0nat, branches.len(),
{
    if branches.len() == 0 {
        Seq::empty()
    } else {
        let (condition, value) = branches.last();
        misplaced_branches(nodes, rank, index, branches.drop_last(), looped) + if below(nodes, rank, condition as int, index)
            && below(nodes, rank, value as int, index) {
            then(misplaced(nodes, rank, value as int, looped), misplaced(nodes, rank, condition as int, looped))
        } else {
            Seq::empty()
        }
    }
}

} // verus!

verus! {

/// Appends the misplaced jumps within a list of parts of the node at
/// `index`, one part after another.
fn check_all(
    nodes: &Vec<ValueNode>,
    index: usize,
    parts: &Vec<usize>,
    looped: bool,
    reports: &mut Vec<Misplaced>,
    Ghost(rank): Ghost<spec_fn(int) -> nat>,
)
    requires
        index < nodes.len(),
        ranked(nodes@, rank),
        forall|j: int| 0 <= j < parts.len() ==> below(nodes@, rank, parts@[j] as int, index as int),
    ensures
        final(reports)@ == old(reports)@ + misplaced_all(nodes@, rank, index as int, parts@, looped),
    decreases rank(index as int), 0nat,
{
    let ghost start = reports@;
    let mut k: usize = 0;
    while k < parts.len()
        invariant
            k <= parts.len(),
            index < nodes.len(),
            ranked(nodes@, rank),
            forall|j: int| 0 <= j < parts.len() ==> below(nodes@, rank, parts@[j] as int, index as int),
            reports@ == start + misplaced_all(nodes@, rank, index as int, parts@.take(k as int), looped),
        decreases parts.len() - k,
    {
        let part = parts[k];
        check(nodes, part, looped, reports, Ghost(rank));
        proof {
            assert(parts@.take(k + 1).drop_last() =~= parts@.take(k as int));
            assert(parts@.take(k + 1).last() == part);
            assert(reports@ =~= start + misplaced_all(nodes@, rank, index as int, parts@.take(k + 1), looped));
        }
        k = k + 1;
    }
    assert(parts@.take(parts.len() as int) =~= parts@);
}

/// Appends the misplaced jumps within the first of two parts of the node
/// at `index`, or, where there are none, within the second.
fn check_pair(
    nodes: &Vec<ValueNode>,
    index: usize,
    first: usize,
    first_looped: bool,
    second: usize,
    second_looped: bool,
    reports: &mut Vec<Misplaced>,
    Ghost(rank): Ghost<spec_fn(int) -> nat>,
)
    requires
        index < nodes.len(),
        ranked(nodes@, rank),
        below(nodes@, rank, first as int, index as int),
        below(nodes@, rank, second as int, index as int),
    ensures
        final(reports)@ == old(reports)@ + then(
            misplaced(nodes@, rank, first as int, first_looped),
            misplaced(nodes@, rank, second as int, second_looped),
        ),
    decreases rank(index as int), 0nat,
{
    let before = reports.len();
    check(nodes, first, first_looped, reports, Ghost(rank));
    if reports.len() == before {
        check(nodes, second, second_looped, reports, Ghost(rank));
    }
}

/// Appends the misplaced jumps within the node at `index`; `looped` says
/// whether the node is enclosed in a loop.
fn check(
    nodes: &Vec<ValueNode>,
    index: usize,
    looped: bool,
    reports: &mut Vec<Misplaced>,
    Ghost(rank): Ghost<spec_fn(int) -> nat>,
)
    requires
        index < nodes.len(),
        ranked(nodes@, rank),
    ensures
        final(reports)@ == old(reports)@ + misplaced(nodes@, rank, index as int, looped),
    decreases rank(index as int), 1nat,
{
    assert(parts_ranked(nodes@, rank, nodes@[index as int], index as int));
    match &nodes[index] {
        ValueNode::Block(parts) => check_all(nodes, index, parts, looped, reports, Ghost(rank)),
        ValueNode::Let(part) => match part {
            Some(p) => check(nodes, *p, looped, reports, Ghost(rank)),
            None => {},
        },
        ValueNode::Assign(a, b) => check_pair(nodes, index, *a, looped, *b, looped, reports, Ghost(rank)),
        ValueNode::While(a, b) => check_pair(nodes, index, *a, looped, *b, true, reports, Ghost(rank)),
        ValueNode::When(branches) => {
            let ghost start = reports@;
            let mut k: usize = 0;
            while k < branches.len()
                invariant
                    k <= branches.len(),
                    index < nodes.len(),
                    ranked(nodes@, rank),
                    forall|j: int|
                        0 <= j < branches.len() ==> below(nodes@, rank, branches@[j].0 as int, index as int) && below(nodes@, rank, branches@[j].1 as int, index as int),
                    reports@ == start + misplaced_branches(
                        nodes@,
                        rank,
                        index as int,
                        branches@.take(k as int),
                        looped,
                    ),
                decreases branches.len() - k,
            {
                let (condition, value) = branches[k];
                check_pair(nodes, index, value, looped, condition, looped, reports, Ghost(rank));
                proof {
                    assert(branches@.take(k + 1).drop_last() =~= branches@.take(k as int));
                    assert(branches@.take(k + 1).last() == branches@[k as int]);
                    assert(reports@ =~= start + misplaced_branches(
                        nodes@,
                        rank,
                        index as int,
                        branches@.take(k + 1),
                        looped,
                    ));
                }
                k = k + 1;
            }
            assert(branches@.take(branches.len() as int) =~= branches@);
        },
        ValueNode::Cast(a) => check(nodes, *a, looped, reports, Ghost(rank)),
        ValueNode::Return(part) => match part {
            Some(p) => check(nodes, *p, looped, reports, Ghost(rank)),
            None => {},
        },
        ValueNode::Compile(a) => check(nodes, *a, looped, reports, Ghost(rank)),
        ValueNode::Inline(a) => check(nodes, *a, looped, reports, Ghost(rank)),
        ValueNode::Call(parts) => check_all(nodes, index, parts, looped, reports, Ghost(rank)),
        ValueNode::Field(a) => check(nodes, *a, looped, reports, Ghost(rank)),
        ValueNode::Create(parts) => check_all(nodes, index, parts, looped, reports, Ghost(rank)),
        ValueNode::Slice(a, start, end) => {
            let before = reports.len();
            check(nodes, *a, looped, reports, Ghost(rank));
            if reports.len() == before {
                match start {
                    Some(s) => check(nodes, *s, looped, reports, Ghost(rank)),
                    None => {},
                }
                if reports.len() == before {
                    match end {
                        Some(e) => check(nodes, *e, looped, reports, Ghost(rank)),
                        None => {},
                    }
                }
            }
        },
        ValueNode::Index(a, b) => check_pair(nodes, index, *a, looped, *b, looped, reports, Ghost(rank)),
        ValueNode::Compound(a, b) => check_pair(nodes, index, *a, looped, *b, looped, reports, Ghost(rank)),
        ValueNode::Binary(a, b) => check_pair(nodes, index, *a, looped, *b, looped, reports, Ghost(rank)),
        ValueNode::Unary(a) => check(nodes, *a, looped, reports, Ghost(rank)),
        ValueNode::Continue => {
            if !looped {
                reports.push(Misplaced::Continue(index));
            }
        },
        ValueNode::Break => {
            if !looped {
                reports.push(Misplaced::Break(index));
            }
        },
        ValueNode::Leaf => {},
    }
}

/// Checks that every `break` and `continue` of a function body is enclosed
/// in a loop: it succeeds exactly when none lies outside the body of every
/// loop. Fails with the misplaced jumps, in the order they are found.
pub fn loops(value: &Value) -> (r: Result<(), Vec<Misplaced>>)
    requires
        value.well_formed(),
    ensures
        r is Ok <==> misplaced(value.nodes@, ranking(value.nodes@), value.root as int, false).len() == 0,
        r is Ok <==> !unenclosed(value.nodes@, ranking(value.nodes@), value.root as int),
        r matches Err(reports) ==> reports@ == misplaced(value.nodes@, ranking(value.nodes@), value.root as int, false),
{
    let ghost rank = ranking(value.nodes@);
    proof {
        lemma_misplaced_iff_unenclosed(value.nodes@, rank, value.root as int);
    }
    let mut reports: Vec<Misplaced> = Vec::new();
    check(&value.nodes, value.root, false, &mut reports, Ghost(rank));
    assert(reports@ =~= misplaced(value.nodes@, ranking(value.nodes@), value.root as int, false));
    if reports.len() == 0 {
        Ok(())
    } else {
        Err(reports)
    }
}

} // verus!

verus! {

/// Whether a report names a `break` or `continue` node of the body that
/// matches it.
pub open spec fn names_jump(nodes: Seq<ValueNode>, report: Misplaced) -> bool {
    match report {
        Misplaced::Break(k) => k < nodes.len() && nodes[k as int] is Break,
        Misplaced::Continue(k) => k < nodes.len() && nodes[k as int] is Continue,
    }
}

/// Whether every report names a matching jump.
pub open spec fn all_name_jumps(nodes: Seq<ValueNode>, reports: Seq<Misplaced>) -> bool {
    forall|j: int| 0 <= j < reports.len() ==> names_jump(nodes, #[trigger] reports[j])
}

/// Nothing within a node enclosed in a loop is misplaced.
pub proof fn lemma_enclosed_passes(nodes: Seq<ValueNode>, rank: spec_fn(int) -> nat, index: int)
    ensures
        misplaced(nodes, rank, index, true) == Seq::<Misplaced>::empty(),
    decreases rank(index), 1nat,
{
    if 0 <= index < nodes.len() {
        match nodes[index] {
            ValueNode::Block(parts) => lemma_enclosed_all(nodes, rank, index, parts@),
            ValueNode::Call(parts) => lemma_enclosed_all(nodes, rank, index, parts@),
            ValueNode::Create(parts) => lemma_enclosed_all(nodes, rank, index, parts@),
            ValueNode::When(branches) => lemma_enclosed_branches(nodes, rank, index, branches@),
            ValueNode::Let(Some(p)) | ValueNode::Return(Some(p)) => if below(nodes, rank, p as int, index) {
                lemma_enclosed_passes(nodes, rank, p as int);
            },
            ValueNode::Cast(a) | ValueNode::Compile(a) | ValueNode::Inline(a) | ValueNode::Field(a)
            | ValueNode::Unary(a) => if below(nodes, rank, a as int, index) {
                lemma_enclosed_passes(nodes, rank, a as int);
            },
            ValueNode::Assign(a, b) | ValueNode::While(a, b) | ValueNode::Index(a, b)
            | ValueNode::Compound(a, b) | ValueNode::Binary(a, b) => if below(nodes, rank, a as int, index) && below(nodes, rank, b as int, index) {
                lemma_enclosed_passes(nodes, rank, a as int);
                lemma_enclosed_passes(nodes, rank, b as int);
            },
            ValueNode::Slice(a, start, end) => {
                if below(nodes, rank, a as int, index) {
                    lemma_enclosed_passes(nodes, rank, a as int);
                }
                if let Some(s) = start {
                    if below(nodes, rank, s as int, index) {
                        lemma_enclosed_passes(nodes, rank, s as int);
                    }
                }
                if let Some(e) = end {
                    if below(nodes, rank, e as int, index) {
                        lemma_enclosed_passes(nodes, rank, e as int);
                    }
                }
            },
            _ => {},
        }
    }
}

/// Nothing within the parts of a node enclosed in a loop is misplaced.
proof fn lemma_enclosed_all(nodes: Seq<ValueNode>, rank: spec_fn(int) -> nat, index: int, parts: Seq<usize>)
    ensures
        misplaced_all(nodes, rank, index, parts, true) == Seq::<Misplaced>::empty(),
    decreases rank(index), 0nat, parts.len(),
{
    if parts.len() > 0 {
        lemma_enclosed_all(nodes, rank, index, parts.drop_last());
        let part = parts.last() as int;
        if below(nodes, rank, part, index) {
            lemma_enclosed_passes(nodes, rank, part);
        }
        assert(misplaced_all(nodes, rank, index, parts, true) =~= Seq::<Misplaced>::empty());
    }
}

/// Nothing within the branches of a node enclosed in a loop is misplaced.
proof fn lemma_enclosed_branches(nodes: Seq<ValueNode>, rank: spec_fn(int) -> nat, index: int, branches: Seq<(usize, usize)>)
    ensures
        misplaced_branches(nodes, rank, index, branches, true) == Seq::<Misplaced>::empty(),
    decreases rank(index), 0nat, branches.len(),
{
    if branches.len() > 0 {
        lemma_enclosed_branches(nodes, rank, index, branches.drop_last());
        let (condition, value) = branches.last();
        if below(nodes, rank, condition as int, index) && below(nodes, rank, value as int, index) {
            lemma_enclosed_passes(nodes, rank, value as int);
            lemma_enclosed_passes(nodes, rank, condition as int);
        }
        assert(misplaced_branches(nodes, rank, index, branches, true) =~= Seq::<Misplaced>::empty());
    }
}

/// Every misplaced jump that the check reports is a `break` or `continue`
/// node of the body, reported as what it is.
pub proof fn lemma_reports_name_jumps(nodes: Seq<ValueNode>, rank: spec_fn(int) -> nat, index: int, looped: bool)
    requires
        nodes.len() <= usize::MAX,
    ensures
        all_name_jumps(nodes, misplaced(nodes, rank, index, looped)),
    decreases rank(index), 1nat,
{
    if 0 <= index < nodes.len() {
        match nodes[index] {
            ValueNode::Block(parts) => lemma_reports_all(nodes, rank, index, parts@, looped),
            ValueNode::Call(parts) => lemma_reports_all(nodes, rank, index, parts@, looped),
            ValueNode::Create(parts) => lemma_reports_all(nodes, rank, index, parts@, looped),
            ValueNode::When(branches) => lemma_reports_branches(nodes, rank, index, branches@, looped),
            ValueNode::Let(Some(p)) => if below(nodes, rank, p as int, index) {
                lemma_reports_name_jumps(nodes, rank, p as int, looped);
            },
            ValueNode::Return(Some(p)) => if below(nodes, rank, p as int, index) {
                lemma_reports_name_jumps(nodes, rank, p as int, looped);
            },
            ValueNode::Cast(a) | ValueNode::Compile(a) | ValueNode::Inline(a) | ValueNode::Field(
                a,
            ) => if below(nodes, rank, a as int, index) {
                lemma_reports_name_jumps(nodes, rank, a as int, looped);
            },
            ValueNode::Unary(a) => if below(nodes, rank, a as int, index) {
                lemma_reports_name_jumps(nodes, rank, a as int, looped);
            },
            ValueNode::While(a, b) => if below(nodes, rank, a as int, index) && below(nodes, rank, b as int, index) {
                lemma_reports_name_jumps(nodes, rank, a as int, looped);
                lemma_reports_name_jumps(nodes, rank, b as int, true);
            },
            ValueNode::Assign(a, b) | ValueNode::Index(a, b) | ValueNode::Compound(a, b)
            | ValueNode::Binary(a, b) => if below(nodes, rank, a as int, index) && below(nodes, rank, b as int, index) {
                lemma_reports_name_jumps(nodes, rank, a as int, looped);
                lemma_reports_name_jumps(nodes, rank, b as int, looped);
            },
            ValueNode::Slice(a, start, end) => {
                if below(nodes, rank, a as int, index) {
                    lemma_reports_name_jumps(nodes, rank, a as int, looped);
                }
                if let Some(s) = start {
                    if below(nodes, rank, s as int, index) {
                        lemma_reports_name_jumps(nodes, rank, s as int, looped);
                    }
                }
                if let Some(e) = end {
                    if below(nodes, rank, e as int, index) {
                        lemma_reports_name_jumps(nodes, rank, e as int, looped);
                    }
                }
            },
            ValueNode::Break | ValueNode::Continue => {
                let reports = misplaced(nodes, rank, index, looped);
                assert((index as usize) as int == index);
                if !looped {
                    assert(reports.len() == 1);
                    assert(names_jump(nodes, reports[0]));
                }
            },
            _ => {},
        }
    }
}

/// Every report within the parts of a node names a matching jump.
proof fn lemma_reports_all(nodes: Seq<ValueNode>, rank: spec_fn(int) -> nat, index: int, parts: Seq<usize>, looped: bool)
    requires
        nodes.len() <= usize::MAX,
    ensures
        all_name_jumps(nodes, misplaced_all(nodes, rank, index, parts, looped)),
    decreases rank(index), 0nat, parts.len(),
{
    if parts.len() > 0 {
        lemma_reports_all(nodes, rank, index, parts.drop_last(), looped);
        let part = parts.last() as int;
        let prior = misplaced_all(nodes, rank, index, parts.drop_last(), looped);
        let last = if below(nodes, rank, part, index) {
            lemma_reports_name_jumps(nodes, rank, part, looped);
            misplaced(nodes, rank, part, looped)
        } else {
            Seq::empty()
        };
        let whole = misplaced_all(nodes, rank, index, parts, looped);
        assert(whole == prior + last);
        assert forall|j: int| 0 <= j < whole.len() implies names_jump(nodes, #[trigger] whole[j]) by {
            if j < prior.len() {
                assert(whole[j] == prior[j]);
            } else {
                assert(whole[j] == last[j - prior.len()]);
            }
        }
    }
}

/// Every report within the branches of a node names a matching jump.
proof fn lemma_reports_branches(
    nodes: Seq<ValueNode>, rank: spec_fn(int) -> nat,
    index: int,
    branches: Seq<(usize, usize)>,
    looped: bool,
)
    requires
        nodes.len() <= usize::MAX,
    ensures
        all_name_jumps(nodes, misplaced_branches(nodes, rank, index, branches, looped)),
    decreases rank(index), 0nat, branches.len(),
{
    if branches.len() > 0 {
        lemma_reports_branches(nodes, rank, index, branches.drop_last(), looped);
        let (condition, value) = branches.last();
        let prior = misplaced_branches(nodes, rank, index, branches.drop_last(), looped);
        let last = if below(nodes, rank, condition as int, index) && below(nodes, rank, value as int, index) {
            lemma_reports_name_jumps(nodes, rank, value as int, looped);
            lemma_reports_name_jumps(nodes, rank, condition as int, looped);
            then(misplaced(nodes, rank, value as int, looped), misplaced(nodes, rank, condition as int, looped))
        } else {
            Seq::empty()
        };
        let whole = misplaced_branches(nodes, rank, index, branches, looped);
        assert(whole == prior + last);
        assert forall|j: int| 0 <= j < whole.len() implies names_jump(nodes, #[trigger] whole[j]) by {
            if j < prior.len() {
                assert(whole[j] == prior[j]);
            } else {
                assert(whole[j] == last[j - prior.len()]);
            }
        }
    }
}


/// A body without `break` or `continue` nodes passes the check.
pub proof fn lemma_no_jumps_pass(nodes: Seq<ValueNode>, rank: spec_fn(int) -> nat, index: int, looped: bool)
    requires
        nodes.len() <= usize::MAX,
        forall|k: int| 0 <= k < nodes.len() ==> !(#[trigger] nodes[k] is Break) && !(nodes[k] is Continue),
    ensures
        misplaced(nodes, rank, index, looped).len() == 0,
{
    lemma_reports_name_jumps(nodes, rank, index, looped);
    let reports = misplaced(nodes, rank, index, looped);
    if reports.len() > 0 {
        assert(names_jump(nodes, reports[0]));
    }
}

} // verus!

verus! {

/// Whether a `break` or `continue` lies within the node at `index` without
/// lying in the body of a loop within it.
pub open spec fn unenclosed(nodes: Seq<ValueNode>, rank: spec_fn(int) -> nat, index: int) -> bool
    decreases rank(index), 1nat,
{
    if 0 <= index < nodes.len() {
        match nodes[index] {
            ValueNode::Block(parts) => unenclosed_any(nodes, rank, index, parts@),
            ValueNode::Call(parts) => unenclosed_any(nodes, rank, index, parts@),
            ValueNode::Create(parts) => unenclosed_any(nodes, rank, index, parts@),
            ValueNode::When(branches) => unenclosed_branch(nodes, rank, index, branches@),
            ValueNode::Let(Some(p)) => below(nodes, rank, p as int, index) && unenclosed(nodes, rank, p as int),
            ValueNode::Return(Some(p)) => below(nodes, rank, p as int, index) && unenclosed(nodes, rank, p as int),
            ValueNode::Cast(a) => below(nodes, rank, a as int, index) && unenclosed(nodes, rank, a as int),
            ValueNode::Compile(a) => below(nodes, rank, a as int, index) && unenclosed(nodes, rank, a as int),
            ValueNode::Inline(a) => below(nodes, rank, a as int, index) && unenclosed(nodes, rank, a as int),
            ValueNode::Field(a) => below(nodes, rank, a as int, index) && unenclosed(nodes, rank, a as int),
            ValueNode::Unary(a) => below(nodes, rank, a as int, index) && unenclosed(nodes, rank, a as int),
            // the body of a loop is enclosed; only its condition is not
            ValueNode::While(a, b) => below(nodes, rank, a as int, index) && below(nodes, rank, b as int, index) && unenclosed(nodes, rank, a as int),
            ValueNode::Assign(a, b) => below(nodes, rank, a as int, index) && below(nodes, rank, b as int, index) && (unenclosed(nodes, rank, a as int)
                || unenclosed(nodes, rank, b as int)),
            ValueNode::Index(a, b) => below(nodes, rank, a as int, index) && below(nodes, rank, b as int, index) && (unenclosed(nodes, rank, a as int)
                || unenclosed(nodes, rank, b as int)),
            ValueNode::Compound(a, b) => below(nodes, rank, a as int, index) && below(nodes, rank, b as int, index) && (unenclosed(nodes, rank, a as int)
                || unenclosed(nodes, rank, b as int)),
            ValueNode::Binary(a, b) => below(nodes, rank, a as int, index) && below(nodes, rank, b as int, index) && (unenclosed(nodes, rank, a as int)
                || unenclosed(nodes, rank, b as int)),
            ValueNode::Slice(a, start, end) => below(nodes, rank, a as int, index) && (start matches Some(s) ==> below(nodes, rank, s as int, index))
                && (end matches Some(e) ==> below(nodes, rank, e as int, index)) && (unenclosed(nodes, rank, a as int) || (
            start matches Some(s) && unenclosed(nodes, rank, s as int)) || (end matches Some(e)
                && unenclosed(nodes, rank, e as int))),
            ValueNode::Break | ValueNode::Continue => true,
            _ => false,
        }
    } else {
        false
    }
}

/// Whether a jump outside loops lies within one of the parts.
pub open spec fn unenclosed_any(nodes: Seq<ValueNode>, rank: spec_fn(int) -> nat, index: int, parts: Seq<usize>) -> bool
    decreases rank(index), 0nat, parts.len(),
{
    if parts.len() == 0 {
        false
    } else {
        let part = parts.last() as int;
        unenclosed_any(nodes, rank, index, parts.drop_last()) || (below(nodes, rank, part, index) && unenclosed(
            nodes,
            rank,
            part,
        ))
    }
}

/// Whether a jump outside loops lies within a condition or value of one of
/// the branches.
pub open spec fn unenclosed_branch(nodes: Seq<ValueNode>, rank: spec_fn(int) -> nat, index: int, branches: Seq<(usize, usize)>) -> bool
    decreases rank(index), 0nat, branches.len(),
{
    if branches.len() == 0 {
        false
    } else {
        let (condition, value) = branches.last();
        unenclosed_branch(nodes, rank, index, branches.drop_last()) || (below(nodes, rank, condition as int, index) && below(nodes, rank, value as int, index)
            && (unenclosed(nodes, rank, value as int) || unenclosed(nodes, rank, condition as int)))
    }
}

/// The check reports something exactly when a `break` or `continue` lies
/// outside every loop: reports come only from such jumps, and such a jump
/// is always reported or preceded by a report.
pub proof fn lemma_misplaced_iff_unenclosed(nodes: Seq<ValueNode>, rank: spec_fn(int) -> nat, index: int)
    ensures
        misplaced(nodes, rank, index, false).len() > 0 <==> unenclosed(nodes, rank, index),
    decreases rank(index), 1nat,
{
    if 0 <= index < nodes.len() {
        match nodes[index] {
            ValueNode::Block(parts) => lemma_misplaced_any(nodes, rank, index, parts@),
            ValueNode::Call(parts) => lemma_misplaced_any(nodes, rank, index, parts@),
            ValueNode::Create(parts) => lemma_misplaced_any(nodes, rank, index, parts@),
            ValueNode::When(branches) => lemma_misplaced_branches(nodes, rank, index, branches@),
            ValueNode::Let(Some(p)) | ValueNode::Return(Some(p)) => if below(nodes, rank, p as int, index) {
                lemma_misplaced_iff_unenclosed(nodes, rank, p as int);
            },
            ValueNode::Cast(a) | ValueNode::Compile(a) | ValueNode::Inline(a) | ValueNode::Field(a)
            | ValueNode::Unary(a) => if below(nodes, rank, a as int, index) {
                lemma_misplaced_iff_unenclosed(nodes, rank, a as int);
            },
            ValueNode::While(a, b) => if below(nodes, rank, a as int, index) && below(nodes, rank, b as int, index) {
                lemma_misplaced_iff_unenclosed(nodes, rank, a as int);
                lemma_enclosed_passes(nodes, rank, b as int);
            },
            ValueNode::Assign(a, b) | ValueNode::Index(a, b) | ValueNode::Compound(a, b)
            | ValueNode::Binary(a, b) => if below(nodes, rank, a as int, index) && below(nodes, rank, b as int, index) {
                lemma_misplaced_iff_unenclosed(nodes, rank, a as int);
                lemma_misplaced_iff_unenclosed(nodes, rank, b as int);
            },
            ValueNode::Slice(a, start, end) => {
                if below(nodes, rank, a as int, index) {
                    lemma_misplaced_iff_unenclosed(nodes, rank, a as int);
                }
                if let Some(s) = start {
                    if below(nodes, rank, s as int, index) {
                        lemma_misplaced_iff_unenclosed(nodes, rank, s as int);
                    }
                }
                if let Some(e) = end {
                    if below(nodes, rank, e as int, index) {
                        lemma_misplaced_iff_unenclosed(nodes, rank, e as int);
                    }
                }
            },
            _ => {},
        }
    }
}

/// Within parts, something is reported exactly when a jump lies outside
/// loops.
proof fn lemma_misplaced_any(nodes: Seq<ValueNode>, rank: spec_fn(int) -> nat, index: int, parts: Seq<usize>)
    ensures
        misplaced_all(nodes, rank, index, parts, false).len() > 0 <==> unenclosed_any(nodes, rank, index, parts),
    decreases rank(index), 0nat, parts.len(),
{
    if parts.len() > 0 {
        lemma_misplaced_any(nodes, rank, index, parts.drop_last());
        let part = parts.last() as int;
        if below(nodes, rank, part, index) {
            lemma_misplaced_iff_unenclosed(nodes, rank, part);
        }
    }
}

/// Within branches, something is reported exactly when a jump lies outside
/// loops.
proof fn lemma_misplaced_branches(nodes: Seq<ValueNode>, rank: spec_fn(int) -> nat, index: int, branches: Seq<(usize, usize)>)
    ensures
        misplaced_branches(nodes, rank, index, branches, false).len() > 0 <==> unenclosed_branch(
            nodes,
            rank,
            index,
            branches,
        ),
    decreases rank(index), 0nat, branches.len(),
{
    if branches.len() > 0 {
        lemma_misplaced_branches(nodes, rank, index, branches.drop_last());
        let (condition, value) = branches.last();
        if below(nodes, rank, condition as int, index) && below(nodes, rank, value as int, index) {
            lemma_misplaced_iff_unenclosed(nodes, rank, value as int);
            lemma_misplaced_iff_unenclosed(nodes, rank, condition as int);
        }
    }
}

} // verus!
