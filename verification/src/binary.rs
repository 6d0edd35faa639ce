use vstd::prelude::*;

use vstd::multiset::Multiset;

use crate::node::Size;

verus! {

broadcast use vstd::seq_lib::group_to_multiset_ensures;

/// An address in the loaded image.
pub type Address = usize;

/// The number of bytes that a symbol occupies in the loaded image.
pub type SymbolSize = usize;

/// Interned path of a function symbol.
pub type FunctionId = usize;

/// A displacement inside a section that must hold the distance from a
/// point of the section to the start of a function.
#[derive(Debug, Clone, Copy)]
pub struct Relative {
    /// Width of the displacement.
    pub size: Size,
    /// Where the displacement is stored, from the start of the section.
    pub offset: usize,
    /// The point the displacement is measured from, from the start of the
    /// section.
    pub target: usize,
    /// The function whose start the displacement reaches.
    pub path: FunctionId,
}

/// Machine code of a function and the displacements it still needs.
#[derive(Debug)]
pub struct Section {
    pub bytes: Vec<u8>,
    pub relative: Vec<Relative>,
}

/// What a symbol of the image holds.
#[derive(Debug)]
pub enum Entity {
    Function(Section),
    /// A variable with initial bytes, or one that is only reserved.
    Variable(Option<Vec<u8>>),
}

/// A symbol placed in the image.
#[derive(Debug)]
pub struct Entry {
    pub load: Address,
    pub address: Address,
    pub size: SymbolSize,
    pub entity: Entity,
}

/// A run of adjacent symbols of the same kind.
#[derive(Debug)]
pub struct Segment {
    pub address: Address,
    pub kind: SegmentKind,
}

/// The contents of a segment: code, initialised data, or a number of
/// reserved bytes.
#[derive(Debug)]
pub enum SegmentKind {
    Text(Vec<Vec<u8>>),
    Data(Vec<Vec<u8>>),
    Reserve(usize),
}

/// What a symbol holds, as values.
pub enum EntityView {
    Function(Seq<u8>),
    Variable(Option<Seq<u8>>),
}

/// A placed symbol, as values.
pub struct EntryView {
    pub load: int,
    pub size: int,
    pub entity: EntityView,
}

/// The contents of a segment, as values.
pub enum KindView {
    Text(Seq<Seq<u8>>),
    Data(Seq<Seq<u8>>),
    Reserve(int),
}

/// A segment, as values.
pub struct SegmentView {
    pub address: int,
    pub kind: KindView,
}

impl View for Entry {
    type V = EntryView;

    open spec fn view(&self) -> EntryView {
        EntryView {
            load: self.load as int,
            size: self.size as int,
            entity: match self.entity {
                Entity::Function(section) => EntityView::Function(section.bytes@),
                Entity::Variable(Some(data)) => EntityView::Variable(Some(data@)),
                Entity::Variable(None) => EntityView::Variable(None),
            },
        }
    }
}

/// The contents of each buffer of a list.
pub open spec fn chunks_view(chunks: Seq<Vec<u8>>) -> Seq<Seq<u8>> {
    chunks.map_values(|chunk: Vec<u8>| chunk@)
}

impl View for Segment {
    type V = SegmentView;

    open spec fn view(&self) -> SegmentView {
        SegmentView {
            address: self.address as int,
            kind: match self.kind {
                SegmentKind::Text(chunks) => KindView::Text(chunks_view(chunks@)),
                SegmentKind::Data(chunks) => KindView::Data(chunks_view(chunks@)),
                SegmentKind::Reserve(size) => KindView::Reserve(size as int),
            },
        }
    }
}

/// The segments of a list, as values.
pub open spec fn segments_view(segments: Seq<Segment>) -> Seq<SegmentView> {
    segments.map_values(|segment: Segment| segment@)
}

/// The symbols of a list, as values.
pub open spec fn entries_view(entries: Seq<Entry>) -> Seq<EntryView> {
    entries.map_values(|entry: Entry| entry@)
}

/// Symbols ordered by load address.
pub open spec fn sorted_by_load(entries: Seq<Entry>) -> bool {
    forall|i: int, j: int| 0 <= i < j < entries.len() ==> entries[i].load <= entries[j].load
}

/// The state of grouping symbols into segments: the closed segments, the
/// open one, and the address just past the last symbol.
pub struct Grouping {
    pub done: Seq<SegmentView>,
    pub current: Option<SegmentView>,
    pub last: Option<int>,
}

/// The closed segments together with the open one.
pub open spec fn closed(g: Grouping) -> Seq<SegmentView> {
    match g.current {
        Some(segment) => g.done.push(segment),
        None => g.done,
    }
}

/// Adds one symbol: it joins the open segment when that segment is of its
/// kind and the symbol starts where the previous one ended; otherwise it
/// opens a new segment at its load address.
pub open spec fn grouping_step(g: Grouping, e: EntryView) -> Grouping {
    let joined = g.last == Some(e.load);
    let last = Some(e.load + e.size);
    let open = |kind: KindView|
        Grouping {
            done: closed(g),
            current: Some(SegmentView { address: e.load, kind }),
            last,
        };
    match e.entity {
        EntityView::Function(bytes) => match g.current {
            Some(SegmentView { address, kind: KindView::Text(chunks) }) => if joined {
                Grouping {
                    done: g.done,
                    current: Some(SegmentView { address, kind: KindView::Text(chunks.push(bytes)) }),
                    last,
                }
            } else {
                open(KindView::Text(seq![bytes]))
            },
            _ => open(KindView::Text(seq![bytes])),
        },
        EntityView::Variable(Some(bytes)) => match g.current {
            Some(SegmentView { address, kind: KindView::Data(chunks) }) => if joined {
                Grouping {
                    done: g.done,
                    current: Some(SegmentView { address, kind: KindView::Data(chunks.push(bytes)) }),
                    last,
                }
            } else {
                open(KindView::Data(seq![bytes]))
            },
            _ => open(KindView::Data(seq![bytes])),
        },
        EntityView::Variable(None) => match g.current {
            Some(SegmentView { address, kind: KindView::Reserve(reserve) }) => if joined {
                Grouping {
                    done: g.done,
                    current: Some(
                        SegmentView { address, kind: KindView::Reserve(reserve + e.size) },
                    ),
                    last,
                }
            } else {
                open(KindView::Reserve(e.size))
            },
            _ => open(KindView::Reserve(e.size)),
        },
    }
}

/// The open segment, when it reserves bytes, ends where the last symbol
/// ends.
pub open spec fn tracks(g: Grouping) -> bool {
    g.current matches Some(SegmentView { address, kind: KindView::Reserve(reserve) }) ==> g.last
        == Some(address + reserve)
}

/// Adding a symbol keeps an open reserving segment ending at the last
/// symbol.
pub proof fn lemma_step_tracks(g: Grouping, e: EntryView)
    requires
        tracks(g),
    ensures
        tracks(grouping_step(g, e)),
{
}

/// Groups symbols, in the given order, into segments.
pub open spec fn grouping(entries: Seq<EntryView>) -> Grouping
    decreases entries.len(),
{
    if entries.len() == 0 {
        Grouping { done: Seq::empty(), current: None, last: None }
    } else {
        grouping_step(grouping(entries.drop_last()), entries.last())
    }
}

/// The segments made from symbols taken in the given order.
pub open spec fn grouped(entries: Seq<EntryView>) -> Seq<SegmentView> {
    closed(grouping(entries))
}


/// Symbols, as values, ordered by load address.
pub open spec fn views_sorted(entries: Seq<EntryView>) -> bool {
    forall|i: int, j: int| 0 <= i < j < entries.len() ==> entries[i].load <= entries[j].load
}

/// Segments whose addresses never decrease, none past `bound`.
pub open spec fn ascending_within(segments: Seq<SegmentView>, bound: int) -> bool {
    &&& forall|i: int, j: int|
        0 <= i < j < segments.len() ==> segments[i].address <= segments[j].address
    &&& forall|i: int| 0 <= i < segments.len() ==> segments[i].address <= bound
}

/// Symbols taken in order of load address make segments in order of
/// address: each segment starts no later than the next one.
pub proof fn lemma_segments_ascending(entries: Seq<EntryView>)
    requires
        views_sorted(entries),
    ensures
        forall|i: int, j: int|
            0 <= i < j < grouped(entries).len() ==> grouped(entries)[i].address <= grouped(
                entries,
            )[j].address,
{
    if entries.len() > 0 {
        lemma_grouping_ascending(entries);
    }
}

/// The segments grouped from sorted symbols ascend, none past the load
/// address of the last symbol.
proof fn lemma_grouping_ascending(entries: Seq<EntryView>)
    requires
        views_sorted(entries),
        entries.len() > 0,
    ensures
        ascending_within(closed(grouping(entries)), entries.last().load),
        grouping(entries).current is Some,
    decreases entries.len(),
{
    let rest = entries.drop_last();
    let e = entries.last();
    let g = grouping(rest);
    let next = grouping_step(g, e);
    assert(grouping(entries) == next);
    if rest.len() > 0 {
        assert(views_sorted(rest)) by {
            assert forall|i: int, j: int| 0 <= i < j < rest.len() implies rest[i].load
                <= rest[j].load by {
                assert(rest[i] == entries[i] && rest[j] == entries[j]);
            }
        }
        lemma_grouping_ascending(rest);
        assert(rest.last().load <= e.load) by {
            assert(rest.last() == entries[entries.len() - 2]);
        }
    } else {
        assert(g.current is None && g.done.len() == 0);
    }
    let before = closed(g);
    let after = closed(next);
    if next.done == before {
        // a new segment opens at the symbol's load address
        assert(after == before.push(next.current->Some_0));
        assert(next.current->Some_0.address == e.load);
    } else {
        // the symbol joins the open segment, which keeps its address
        assert(next.done == g.done);
        assert(g.current is Some);
        assert(before == g.done.push(g.current->Some_0));
        assert(after == g.done.push(next.current->Some_0));
        assert(next.current->Some_0.address == g.current->Some_0.address);
        assert forall|i: int| 0 <= i < after.len() implies after[i].address == before[i].address by {
            if i < g.done.len() {
                assert(after[i] == g.done[i] && before[i] == g.done[i]);
            }
        }
    }
}

} // verus!

verus! {

/// Orders symbols by load address, keeping the order of symbols with the
/// same load address.
fn sort_by_load(entries: Vec<Entry>) -> (r: Vec<Entry>)
    ensures
        sorted_by_load(r@),
        r@.to_multiset() == entries@.to_multiset(),
{
    let ghost initial = entries@;
    let mut input = entries;
    let mut out: Vec<Entry> = Vec::new();
    proof {
        assert(out@.to_multiset() =~= Multiset::<Entry>::empty());
        assert(out@.to_multiset().add(input@.to_multiset()) =~= initial.to_multiset());
    }
    while input.len() > 0
        invariant
            sorted_by_load(out@),
            out@.to_multiset().add(input@.to_multiset()) == initial.to_multiset(),
        decreases input.len(),
    {
        let ghost before = input@;
        let entry = input.remove(0);
        proof {
            assert(before.remove(0) == input@);
            assert(before.to_multiset().remove(entry) =~= input@.to_multiset());
            assert(before.contains(entry));
        }
        let mut pos = out.len();
        while pos > 0 && out[pos - 1].load > entry.load
            invariant
                pos <= out.len(),
                forall|k: int| pos <= k < out.len() ==> out@[k].load > entry.load,
            decreases pos,
        {
            pos = pos - 1;
        }
        let ghost prior = out@;
        out.insert(pos, entry);
        proof {
            assert(out@ == prior.insert(pos as int, entry));
            assert(out@.remove(pos as int) =~= prior);
            assert(out@.to_multiset().remove(entry) =~= prior.to_multiset());
            assert(out@.contains(entry)) by {
                assert(out@[pos as int] == entry);
            }
            assert(out@.to_multiset() =~= prior.to_multiset().insert(entry));
            assert(before.to_multiset() =~= input@.to_multiset().insert(entry));
            assert(out@.to_multiset().add(input@.to_multiset()) =~= initial.to_multiset());
            assert forall|i: int, j: int| 0 <= i < j < out@.len() implies out@[i].load
                <= out@[j].load by {
                if j < pos {
                } else if j == pos {
                    if pos > 0 {
                        assert(prior[pos - 1].load <= entry.load);
                        assert(prior[i].load <= prior[pos - 1].load || i == pos - 1);
                    }
                } else if i < pos {
                    assert(out@[j] == prior[j - 1]);
                } else if i == pos {
                    assert(out@[j] == prior[j - 1]);
                } else {
                    assert(out@[j] == prior[j - 1]);
                    assert(out@[i] == prior[i - 1]);
                }
            }
        }
    }
    proof {
        assert(input@.to_multiset() =~= Multiset::<Entry>::empty());
        assert(out@.to_multiset() =~= out@.to_multiset().add(input@.to_multiset()));
    }
    out
}

/// Adds one symbol to the grouping state held by `segments`, `segment` and
/// `last`; returns the open segment afterwards.
fn group_one(
    segments: &mut Vec<Segment>,
    segment: Option<Segment>,
    last: Option<Address>,
    entry: Entry,
) -> (r: Option<Segment>)
    requires
        entry.load + entry.size <= usize::MAX,
        tracks(Grouping {
            done: segments_view(old(segments)@),
            current: match segment {
                Some(s) => Some(s@),
                None => None,
            },
            last: match last {
                Some(a) => Some(a as int),
                None => None,
            },
        }),
    ensures
        ({
            let g = Grouping {
                done: segments_view(old(segments)@),
                current: match segment {
                    Some(s) => Some(s@),
                    None => None,
                },
                last: match last {
                    Some(a) => Some(a as int),
                    None => None,
                },
            };
            let n = grouping_step(g, entry@);
            &&& segments_view(final(segments)@) == n.done
            &&& n.current == match r {
                Some(s) => Some(s@),
                None => None::<SegmentView>,
            }
        }),
{
    let ghost before = segments@;
    let Entry { load: address, size, entity, .. } = entry;
    let joined = match last {
        Some(a) => a == address,
        None => false,
    };
    let mut open = |segments: &mut Vec<Segment>, segment: Option<Segment>, kind: SegmentKind| -> (r: Option<Segment>)
        ensures
            segments_view(final(segments)@) == match segment {
                Some(s) => segments_view(old(segments)@).push(s@),
                None => segments_view(old(segments)@),
            },
            r == Some(Segment { address, kind }),
    {
        match segment {
            Some(s) => {
                let ghost prior = segments@;
                segments.push(s);
                proof {
                    assert(segments_view(segments@) =~= segments_view(prior).push(s@));
                }
            },
            None => {},
        }
        Some(Segment { address, kind })
    };
    match entity {
        Entity::Function(section) => {
            let bytes = section.bytes;
            match segment {
                Some(Segment { address: start, kind: SegmentKind::Text(chunks) }) => {
                    if joined {
                        let ghost prior = chunks@;
                        let mut chunks = chunks;
                        chunks.push(bytes);
                        proof {
                            assert(chunks_view(chunks@) =~= chunks_view(prior).push(bytes@));
                        }
                        Some(Segment { address: start, kind: SegmentKind::Text(chunks) })
                    } else {
                        let one = vec![bytes];
                        proof {
                            assert(chunks_view(one@) =~= seq![bytes@]);
                        }
                        let s = Some(Segment { address: start, kind: SegmentKind::Text(chunks) });
                        open(segments, s, SegmentKind::Text(one))
                    }
                },
                other => {
                    let one = vec![bytes];
                    proof {
                        assert(chunks_view(one@) =~= seq![bytes@]);
                    }
                    open(segments, other, SegmentKind::Text(one))
                },
            }
        },
        Entity::Variable(Some(bytes)) => {
            match segment {
                Some(Segment { address: start, kind: SegmentKind::Data(chunks) }) => {
                    if joined {
                        let ghost prior = chunks@;
                        let mut chunks = chunks;
                        chunks.push(bytes);
                        proof {
                            assert(chunks_view(chunks@) =~= chunks_view(prior).push(bytes@));
                        }
                        Some(Segment { address: start, kind: SegmentKind::Data(chunks) })
                    } else {
                        let one = vec![bytes];
                        proof {
                            assert(chunks_view(one@) =~= seq![bytes@]);
                        }
                        let s = Some(Segment { address: start, kind: SegmentKind::Data(chunks) });
                        open(segments, s, SegmentKind::Data(one))
                    }
                },
                other => {
                    let one = vec![bytes];
                    proof {
                        assert(chunks_view(one@) =~= seq![bytes@]);
                    }
                    open(segments, other, SegmentKind::Data(one))
                },
            }
        },
        Entity::Variable(None) => {
            match segment {
                Some(Segment { address: start, kind: SegmentKind::Reserve(reserve) }) => {
                    if joined {
                        Some(Segment { address: start, kind: SegmentKind::Reserve(reserve + size) })
                    } else {
                        let s = Some(Segment { address: start, kind: SegmentKind::Reserve(reserve) });
                        open(segments, s, SegmentKind::Reserve(size))
                    }
                },
                other => open(segments, other, SegmentKind::Reserve(size)),
            }
        },
    }
}

} // verus!

verus! {

/// Orders the symbols by load address and groups each run of adjacent
/// symbols of the same kind into one segment: functions into code segments,
/// initialised variables into data segments, and reserved variables into
/// segments that only reserve bytes. A symbol joins the previous segment
/// when it is of its kind and starts where the previous symbol ends.
pub fn segments(entries: Vec<Entry>) -> (r: Vec<Segment>)
    requires
        forall|i: int| 0 <= i < entries@.len() ==> entries@[i].load + entries@[i].size <= usize::MAX,
    ensures
        exists|sorted: Seq<Entry>|
            {
                &&& sorted_by_load(sorted)
                &&& sorted.to_multiset() == entries@.to_multiset()
                &&& segments_view(r@) == grouped(entries_view(sorted))
            },
        forall|i: int, j: int| 0 <= i < j < r@.len() ==> r@[i].address <= r@[j].address,
{
    let ghost initial = entries@;
    let mut sorted = sort_by_load(entries);
    let ghost order = sorted@;
    proof {
        assert forall|i: int| 0 <= i < order.len() implies order[i].load + order[i].size
            <= usize::MAX by {
            assert(order.to_multiset().count(order[i]) > 0);
            assert(initial.contains(order[i]));
        }
    }
    let mut segments: Vec<Segment> = Vec::new();
    let mut segment: Option<Segment> = None;
    let mut last: Option<Address> = None;
    let ghost mut k: int = 0;
    proof {
        assert(order.take(0) =~= Seq::<Entry>::empty());
        assert(entries_view(order.take(0)) =~= Seq::<EntryView>::empty());
        assert(segments_view(segments@) =~= Seq::<SegmentView>::empty());
        assert(order.skip(0) =~= order);
    }
    while sorted.len() > 0
        invariant
            0 <= k <= order.len(),
            sorted@ == order.skip(k),
            forall|i: int| 0 <= i < order.len() ==> order[i].load + order[i].size <= usize::MAX,
            ({
                let g = grouping(entries_view(order.take(k)));
                &&& segments_view(segments@) == g.done
                &&& g.current == match segment {
                    Some(s) => Some(s@),
                    None => None::<SegmentView>,
                }
                &&& g.last == match last {
                    Some(a) => Some(a as int),
                    None => None::<int>,
                }
                &&& tracks(g)
            }),
        decreases sorted.len(),
    {
        let entry = sorted.remove(0);
        let ghost g = grouping(entries_view(order.take(k)));
        proof {
            assert(entry == order[k]);
            assert(entries_view(order.take(k + 1)).drop_last() =~= entries_view(order.take(k)));
            assert(entries_view(order.take(k + 1)).last() == order[k]@);
            lemma_step_tracks(g, order[k]@);
        }
        let end = entry.load + entry.size;
        segment = group_one(&mut segments, segment, last, entry);
        last = Some(end);
        proof {
            k = k + 1;
            assert(sorted@ =~= order.skip(k));
        }
    }
    proof {
        assert(order.take(k) =~= order);
    }
    let ghost prior = segments@;
    match segment {
        Some(s) => {
            segments.push(s);
            proof {
                assert(segments_view(segments@) =~= segments_view(prior).push(s@));
            }
        },
        None => {},
    }
    proof {
        let views = entries_view(order);
        assert forall|i: int, j: int| 0 <= i < j < views.len() implies views[i].load
            <= views[j].load by {
            assert(views[i] == order[i]@ && views[j] == order[j]@);
        }
        lemma_segments_ascending(views);
        assert forall|i: int, j: int| 0 <= i < j < segments@.len() implies segments@[i].address
            <= segments@[j].address by {
            assert(segments_view(segments@)[i] == segments@[i]@);
            assert(segments_view(segments@)[j] == segments@[j]@);
        }
    }
    segments
}

} // verus!

verus! {

/// The initial bytes of the functions and initialised variables among the
/// symbols, in order.
pub open spec fn entry_chunks(entries: Seq<EntryView>) -> Seq<Seq<u8>>
    decreases entries.len(),
{
    if entries.len() == 0 {
        Seq::empty()
    } else {
        entry_chunks(entries.drop_last()) + match entries.last().entity {
            EntityView::Function(bytes) => seq![bytes],
            EntityView::Variable(Some(bytes)) => seq![bytes],
            EntityView::Variable(None) => Seq::empty(),
        }
    }
}

/// The number of bytes reserved by the reserved variables among the
/// symbols.
pub open spec fn entry_reserved(entries: Seq<EntryView>) -> int
    decreases entries.len(),
{
    if entries.len() == 0 {
        0
    } else {
        entry_reserved(entries.drop_last()) + match entries.last().entity {
            EntityView::Variable(None) => entries.last().size,
            _ => 0,
        }
    }
}

/// The buffers held by code and data segments, in order.
pub open spec fn segment_chunks(segments: Seq<SegmentView>) -> Seq<Seq<u8>>
    decreases segments.len(),
{
    if segments.len() == 0 {
        Seq::empty()
    } else {
        segment_chunks(segments.drop_last()) + match segments.last().kind {
            KindView::Text(chunks) => chunks,
            KindView::Data(chunks) => chunks,
            KindView::Reserve(_) => Seq::empty(),
        }
    }
}

/// The number of bytes reserved by reserving segments.
pub open spec fn segment_reserved(segments: Seq<SegmentView>) -> int
    decreases segments.len(),
{
    if segments.len() == 0 {
        0
    } else {
        segment_reserved(segments.drop_last()) + match segments.last().kind {
            KindView::Reserve(size) => size,
            _ => 0,
        }
    }
}

proof fn lemma_step_contents(g: Grouping, e: EntryView)
    ensures
        segment_chunks(closed(grouping_step(g, e))) == segment_chunks(closed(g)) + match e.entity {
            EntityView::Function(bytes) => seq![bytes],
            EntityView::Variable(Some(bytes)) => seq![bytes],
            EntityView::Variable(None) => Seq::empty(),
        },
        segment_reserved(closed(grouping_step(g, e))) == segment_reserved(closed(g)) + match e.entity {
            EntityView::Variable(None) => e.size,
            _ => 0,
        },
{
    let n = grouping_step(g, e);
    let c = closed(g);
    let d = closed(n);
    if g.current is Some && n.done.len() == g.done.len() {
        // the symbol joined the open segment
        assert(g.current is Some);
        assert(d.drop_last() =~= g.done);
        assert(c.drop_last() =~= g.done);
        match e.entity {
            EntityView::Function(bytes) => {
                if let KindView::Text(chunks) = g.current->Some_0.kind {
                    assert(chunks.push(bytes) =~= chunks + seq![bytes]);
                }
            },
            EntityView::Variable(Some(bytes)) => {
                if let KindView::Data(chunks) = g.current->Some_0.kind {
                    assert(chunks.push(bytes) =~= chunks + seq![bytes]);
                }
            },
            EntityView::Variable(None) => {
                assert(Seq::<Seq<u8>>::empty() + Seq::<Seq<u8>>::empty() =~= Seq::<Seq<u8>>::empty());
            },
        }
        assert(segment_chunks(c) =~= segment_chunks(g.done) + match c.last().kind {
            KindView::Text(chunks) => chunks,
            KindView::Data(chunks) => chunks,
            KindView::Reserve(_) => Seq::empty(),
        });
    } else {
        // the symbol opened a new segment
        assert(n.done == c);
        assert(d.drop_last() =~= c);
        match e.entity {
            EntityView::Variable(None) => {
                assert(segment_chunks(d) =~= segment_chunks(c) + Seq::<Seq<u8>>::empty());
            },
            _ => {},
        }
    }
}

/// Grouping keeps every initial byte: the buffers of the code and data
/// segments, in order, are the initial bytes of the functions and
/// initialised variables taken in the same order, and the reserving
/// segments reserve as many bytes as the reserved variables.
pub proof fn lemma_grouping_keeps_contents(entries: Seq<EntryView>)
    ensures
        segment_chunks(grouped(entries)) == entry_chunks(entries),
        segment_reserved(grouped(entries)) == entry_reserved(entries),
    decreases entries.len(),
{
    if entries.len() == 0 {
        assert(grouped(entries) =~= Seq::<SegmentView>::empty());
    } else {
        lemma_grouping_keeps_contents(entries.drop_last());
        lemma_step_contents(grouping(entries.drop_last()), entries.last());
    }
}

} // verus!

verus! {

/// Why the displacements of the image cannot all be filled in.
#[derive(Debug, Clone, Copy, PartialEq, Eq, Structural)]
pub enum PatchError {
    /// A displacement reaches a function whose start address is not known.
    Unresolved,
}

/// The lowest `count` bytes of `value`, least significant first.
pub open spec fn le_bytes(value: nat, count: nat) -> Seq<u8>
    decreases count,
{
    if count == 0 {
        Seq::empty()
    } else {
        seq![(value % 256) as u8] + le_bytes(value / 256, (count - 1) as nat)
    }
}

/// An address read as a signed machine word.
pub open spec fn signed(address: int) -> int {
    if address <= isize::MAX {
        address
    } else {
        address - (usize::MAX + 1)
    }
}

/// Whether the distance between two addresses, read as signed machine
/// words, is itself a signed machine word.
pub open spec fn distance_fits(other: int, base: int) -> bool {
    isize::MIN <= signed(other) - signed(base) <= isize::MAX
}

/// The distance from `base` to `other`, both read as signed machine words,
/// as a 64-bit two's complement number.
pub open spec fn displacement(other: int, base: int) -> nat {
    ((signed(other) - signed(base)) % 0x1_0000_0000_0000_0000int) as nat
}

/// `bytes` with `data` written over it from `offset` on.
pub open spec fn overwrite(bytes: Seq<u8>, offset: int, data: Seq<u8>) -> Seq<u8> {
    bytes.take(offset) + data + bytes.skip(offset + data.len())
}

/// Whether every displacement before the `j`th reaches a function with a
/// known start.
pub open spec fn reached(relative: Seq<Relative>, starts: Seq<Address>, j: int) -> bool {
    forall|i: int| 0 <= i < j ==> relative[i].path < starts.len()
}

/// Whether the displacements of a section at `address` can be filled in
/// without leaving the section or overflowing a machine word: every
/// displacement that is reached and whose function has a known start lies
/// inside the section, measures from an address, and spans a distance that
/// is a signed machine word.
pub open spec fn patchable(
    length: int,
    relative: Seq<Relative>,
    address: int,
    starts: Seq<Address>,
) -> bool {
    forall|j: int|
        0 <= j < relative.len() && reached(relative, starts, j) && relative[j].path < starts.len()
            ==> {
            &&& relative[j].offset + relative[j].size.spec_bytes() <= length
            &&& address + relative[j].target <= usize::MAX
            &&& distance_fits(starts[relative[j].path as int] as int, address + relative[j].target)
        }
}

/// The bytes of a section at `address` after its displacements are filled
/// in, front to back, up to the first one that reaches a function with an
/// unknown start; and whether there was no such displacement.
pub open spec fn patched(
    bytes: Seq<u8>,
    relative: Seq<Relative>,
    address: int,
    starts: Seq<Address>,
) -> (Seq<u8>, bool)
    decreases relative.len(),
{
    if relative.len() == 0 {
        (bytes, true)
    } else {
        let (prior, ok) = patched(bytes, relative.drop_last(), address, starts);
        let r = relative.last();
        if !ok || r.path >= starts.len() {
            (prior, false)
        } else {
            let value = displacement(starts[r.path as int] as int, address + r.target);
            (overwrite(prior, r.offset as int, le_bytes(value, r.size.spec_bytes())), true)
        }
    }
}

/// The low bytes of a number are as many as asked for.
pub proof fn lemma_le_bytes_len(value: nat, count: nat)
    ensures
        le_bytes(value, count).len() == count,
    decreases count,
{
    if count > 0 {
        lemma_le_bytes_len(value / 256, (count - 1) as nat);
    }
}

/// The `count` low bytes of `value`, least significant first.
fn encode_le(value: u64, count: usize) -> (r: Vec<u8>)
    requires
        count <= 8,
    ensures
        r@ == le_bytes(value as nat, count as nat),
{
    let mut out: Vec<u8> = Vec::new();
    let mut rest = value;
    let mut k: usize = 0;
    while k < count
        invariant
            k <= count,
            out@ + le_bytes(rest as nat, (count - k) as nat) == le_bytes(value as nat, count as nat),
        decreases count - k,
    {
        let byte = (rest % 256) as u8;
        proof {
            assert(le_bytes(rest as nat, (count - k) as nat) == seq![byte] + le_bytes(
                (rest / 256) as nat,
                (count - k - 1) as nat,
            ));
            assert(out@.push(byte) + le_bytes((rest / 256) as nat, (count - k - 1) as nat)
                =~= out@ + (seq![byte] + le_bytes((rest / 256) as nat, (count - k - 1) as nat)));
        }
        out.push(byte);
        rest = rest / 256;
        k = k + 1;
    }
    proof {
        assert(out@ + le_bytes(rest as nat, 0) =~= out@);
    }
    out
}

/// Writes `data` over `bytes` from `offset` on.
fn write_at(bytes: &mut Vec<u8>, offset: usize, data: &Vec<u8>)
    requires
        offset + data@.len() <= old(bytes)@.len(),
    ensures
        final(bytes)@ == overwrite(old(bytes)@, offset as int, data@),
{
    let ghost prior = bytes@;
    let length = bytes.len();
    let mut k: usize = 0;
    while k < data.len()
        invariant
            length == prior.len(),
            k <= data@.len(),
            offset + data@.len() <= prior.len(),
            bytes@.len() == prior.len(),
            forall|m: int|
                0 <= m < bytes@.len() ==> #[trigger] bytes@[m] == if offset <= m < offset + k {
                    data@[m - offset]
                } else {
                    prior[m]
                },
        decreases data@.len() - k,
    {
        bytes.set(offset + k, data[k]);
        k = k + 1;
    }
    assert(bytes@ =~= overwrite(prior, offset as int, data@));
}

/// An address read as a signed machine word.
pub(crate) fn as_signed(address: usize) -> (r: isize)
    ensures
        r == signed(address as int),
{
    if address <= isize::MAX as usize {
        address as isize
    } else {
        let rest = usize::MAX - address;
        -(rest as isize) - 1
    }
}

/// Fills in the displacements of the code of a function at `address`.
fn patch_section(
    bytes: &mut Vec<u8>,
    relative: &Vec<Relative>,
    address: Address,
    starts: &Vec<Address>,
) -> (r: bool)
    requires
        patchable(old(bytes)@.len() as int, relative@, address as int, starts@),
    ensures
        (final(bytes)@, r) == patched(old(bytes)@, relative@, address as int, starts@),
{
    let ghost initial = bytes@;
    let n = relative.len();
    let mut i: usize = 0;
    proof {
        assert(relative@.take(0) =~= Seq::<Relative>::empty());
    }
    while i < n
        invariant
            n == relative@.len(),
            initial == old(bytes)@,
            i <= n,
            patchable(initial.len() as int, relative@, address as int, starts@),
            (bytes@, true) == patched(initial, relative@.take(i as int), address as int, starts@),
            bytes@.len() == initial.len(),
            reached(relative@, starts@, i as int),
        decreases n - i,
    {
        let r = relative[i];
        proof {
            assert(relative@.take(i + 1).drop_last() =~= relative@.take(i as int));
            assert(relative@.take(i + 1).last() == r);
            assert(r == relative@[i as int]);
        }
        if r.path >= starts.len() {
            proof {
                assert(patched(initial, relative@.take(i + 1), address as int, starts@) == (
                    bytes@,
                    false,
                ));
                lemma_patched_unknown_stays(initial, relative@, address as int, starts@, i as int + 1, n as int);
                assert(relative@.take(n as int) =~= relative@);
                assert(patched(initial, relative@, address as int, starts@) == (bytes@, false));
            }
            return false;
        }
        proof {
            assert(r.offset + r.size.spec_bytes() <= initial.len());
            assert(address + r.target <= usize::MAX);
        }
        let other = starts[r.path];
        let base = address + r.target;
        let difference = as_signed(other) - as_signed(base);
        let value: u64 = if difference >= 0 {
            difference as u64
        } else {
            u64::MAX - (-(difference + 1)) as u64
        };
        proof {
            assert(value as nat == displacement(other as int, base as int));
        }
        let data = encode_le(value, r.size.bytes());
        proof {
            lemma_le_bytes_len(value as nat, r.size.spec_bytes());
        }
        write_at(bytes, r.offset, &data);
        proof {
            assert(reached(relative@, starts@, i + 1));
        }
        i = i + 1;
    }
    proof {
        assert(relative@.take(n as int) =~= relative@);
    }
    true
}

/// Whether byte `k` lies in the slot of a displacement that gets filled
/// in: one that, like every displacement before it, reaches a function
/// with a known start.
pub open spec fn in_filled_slot(relative: Seq<Relative>, starts: Seq<Address>, k: int) -> bool {
    exists|j: int|
        0 <= j < relative.len() && #[trigger] reached(relative, starts, j + 1) && relative[j].offset
            <= k < relative[j].offset + relative[j].size.spec_bytes()
}

/// Patching runs to the end exactly when every displacement reaches a
/// function with a known start.
proof fn lemma_patched_complete(
    bytes: Seq<u8>,
    relative: Seq<Relative>,
    address: int,
    starts: Seq<Address>,
)
    ensures
        patched(bytes, relative, address, starts).1 == reached(relative, starts, relative.len() as int),
    decreases relative.len(),
{
    if relative.len() > 0 {
        let rest = relative.drop_last();
        lemma_patched_complete(bytes, rest, address, starts);
        assert(reached(rest, starts, rest.len() as int) == reached(
            relative,
            starts,
            rest.len() as int,
        )) by {
            assert forall|i: int| 0 <= i < rest.len() implies rest[i] == relative[i] by {}
        }
    }
}

/// Patching keeps the length of a section and changes no byte outside the
/// slots of the displacements that it fills in.
pub proof fn lemma_patch_touches_only_slots(
    bytes: Seq<u8>,
    relative: Seq<Relative>,
    address: int,
    starts: Seq<Address>,
)
    requires
        patchable(bytes.len() as int, relative, address, starts),
    ensures
        patched(bytes, relative, address, starts).0.len() == bytes.len(),
        forall|k: int|
            0 <= k < bytes.len() && !in_filled_slot(relative, starts, k) ==> #[trigger] patched(
                bytes,
                relative,
                address,
                starts,
            ).0[k] == bytes[k],
    decreases relative.len(),
{
    if relative.len() > 0 {
        let rest = relative.drop_last();
        let n = relative.len() - 1;
        assert forall|j: int| 0 <= j <= rest.len() implies reached(rest, starts, j) == reached(
            relative,
            starts,
            j,
        ) by {
            assert forall|i: int| 0 <= i < j implies rest[i] == relative[i] by {}
        }
        assert(patchable(bytes.len() as int, rest, address, starts)) by {
            assert forall|j: int|
                0 <= j < rest.len() && reached(rest, starts, j) && rest[j].path < starts.len()
                implies {
                &&& rest[j].offset + rest[j].size.spec_bytes() <= bytes.len()
                &&& address + rest[j].target <= usize::MAX
                &&& distance_fits(starts[rest[j].path as int] as int, address + rest[j].target)
            } by {
                assert(rest[j] == relative[j]);
                assert(reached(relative, starts, j));
            }
        }
        lemma_patch_touches_only_slots(bytes, rest, address, starts);
        lemma_patched_complete(bytes, rest, address, starts);
        let (prior, ok) = patched(bytes, rest, address, starts);
        let r = relative.last();
        assert forall|k: int| in_filled_slot(rest, starts, k) implies in_filled_slot(
            relative,
            starts,
            k,
        ) by {
            let j = choose|j: int|
                0 <= j < rest.len() && #[trigger] reached(rest, starts, j + 1) && rest[j].offset
                    <= k < rest[j].offset + rest[j].size.spec_bytes();
            assert(rest[j] == relative[j]);
            assert(reached(relative, starts, j + 1));
        }
        if ok && r.path < starts.len() {
            assert(reached(relative, starts, n));
            let value = displacement(starts[r.path as int] as int, address + r.target);
            let data = le_bytes(value, r.size.spec_bytes());
            lemma_le_bytes_len(value, r.size.spec_bytes());
            let after = overwrite(prior, r.offset as int, data);
            assert(patched(bytes, relative, address, starts).0 == after);
            assert forall|k: int|
                0 <= k < bytes.len() && !in_filled_slot(relative, starts, k) implies #[trigger] after[k]
                == bytes[k] by {
                if r.offset <= k < r.offset + r.size.spec_bytes() {
                    assert(reached(relative, starts, n + 1));
                    assert(in_filled_slot(relative, starts, k));
                }
            }
        } else {
            assert(!reached(relative, starts, n + 1));
            assert forall|k: int| in_filled_slot(relative, starts, k) implies in_filled_slot(
                rest,
                starts,
                k,
            ) by {
                let j = choose|j: int|
                    0 <= j < relative.len() && #[trigger] reached(relative, starts, j + 1)
                        && relative[j].offset <= k < relative[j].offset
                        + relative[j].size.spec_bytes();
                assert(j < n);
                assert(rest[j] == relative[j]);
                assert(reached(rest, starts, j + 1));
            }
        }
    }
}

/// Once patching stops, it stays stopped with the same bytes.
proof fn lemma_patched_unknown_stays(
    bytes: Seq<u8>,
    relative: Seq<Relative>,
    address: int,
    starts: Seq<Address>,
    i: int,
    j: int,
)
    requires
        0 <= i <= j <= relative.len(),
        !patched(bytes, relative.take(i), address, starts).1,
    ensures
        patched(bytes, relative.take(j), address, starts) == patched(bytes, relative.take(i), address, starts),
    decreases j - i,
{
    if j > i {
        lemma_patched_unknown_stays(bytes, relative, address, starts, i, j - 1);
        assert(relative.take(j).drop_last() =~= relative.take(j - 1));
    }
}

} // verus!

verus! {

/// Whether every function among the symbols can have its displacements
/// filled in; see `patchable`.
pub open spec fn entries_patchable(entries: Seq<Entry>, starts: Seq<Address>) -> bool {
    forall|i: int|
        #![trigger entries[i]]
        0 <= i < entries.len() ==> match entries[i].entity {
            Entity::Function(section) => patchable(
                section.bytes@.len() as int,
                section.relative@,
                entries[i].address as int,
                starts,
            ),
            Entity::Variable(_) => true,
        }
}

/// Whether `after` is `before` with the displacements of its code filled
/// in; variables are left as they are.
pub open spec fn entry_patched(before: Entry, after: Entry, starts: Seq<Address>) -> bool {
    &&& after.load == before.load
    &&& after.address == before.address
    &&& after.size == before.size
    &&& match before.entity {
        Entity::Function(section) => match after.entity {
            Entity::Function(other) => {
                &&& other.bytes@ == patched(
                    section.bytes@,
                    section.relative@,
                    before.address as int,
                    starts,
                ).0
                &&& other.relative@ == section.relative@
            },
            Entity::Variable(_) => false,
        },
        Entity::Variable(_) => after.entity == before.entity,
    }
}

/// Whether every displacement of the symbol reaches a function with a known
/// start.
pub open spec fn entry_resolved(entry: Entry, starts: Seq<Address>) -> bool {
    match entry.entity {
        Entity::Function(section) => patched(
            section.bytes@,
            section.relative@,
            entry.address as int,
            starts,
        ).1,
        Entity::Variable(_) => true,
    }
}

/// Fills in the displacements in the code of every function: each one
/// receives, in as many little-endian bytes as its size, the distance from
/// its measuring point (counted from the function's address) to the start
/// of the function it reaches, both read as signed machine words, truncated
/// to that size. `starts` holds the
/// start address of each function. In each function, displacements are
/// filled in front to back and stop at the first one whose function has no
/// known start; the other functions are still patched, and the result is
/// then an error.
pub fn patch(entries: &mut Vec<Entry>, starts: &Vec<Address>) -> (r: Result<(), PatchError>)
    requires
        entries_patchable(old(entries)@, starts@),
    ensures
        final(entries)@.len() == old(entries)@.len(),
        forall|i: int|
            #![trigger final(entries)@[i]]
            0 <= i < old(entries)@.len() ==> entry_patched(
                old(entries)@[i],
                final(entries)@[i],
                starts@,
            ),
        r is Ok <==> forall|i: int|
            #![trigger old(entries)@[i]]
            0 <= i < old(entries)@.len() ==> entry_resolved(old(entries)@[i], starts@),
{
    let ghost initial = entries@;
    let n = entries.len();
    let mut failed = false;
    let mut i: usize = 0;
    while i < n
        invariant
            initial == old(entries)@,
            n == initial.len(),
            entries@.len() == n,
            i <= n,
            entries_patchable(initial, starts@),
            forall|j: int| i <= j < n ==> #[trigger] entries@[j] == initial[j],
            forall|j: int|
                #![trigger entries@[j]]
                0 <= j < i ==> entry_patched(initial[j], entries@[j], starts@),
            failed <==> exists|j: int|
                #![trigger initial[j]]
                0 <= j < i && !entry_resolved(initial[j], starts@),
        decreases n - i,
    {
        let entry = entries.remove(i);
        proof {
            assert(entry == initial[i as int]);
        }
        let Entry { load, address, size, entity } = entry;
        let entity = match entity {
            Entity::Function(section) => {
                let Section { bytes, relative } = section;
                let mut bytes = bytes;
                let ok = patch_section(&mut bytes, &relative, address, starts);
                if !ok {
                    failed = true;
                }
                Entity::Function(Section { bytes, relative })
            },
            Entity::Variable(data) => Entity::Variable(data),
        };
        let ghost before = entries@;
        entries.insert(i, Entry { load, address, size, entity });
        proof {
            assert forall|j: int| i < j < n implies #[trigger] entries@[j] == initial[j] by {
                assert(entries@[j] == before[j - 1]);
            }
            assert forall|j: int| 0 <= j < i implies #[trigger] entry_patched(
                initial[j],
                entries@[j],
                starts@,
            ) by {
                assert(entries@[j] == before[j]);
            }
        }
        i = i + 1;
    }
    if failed {
        Err(PatchError::Unresolved)
    } else {
        Ok(())
    }
}

} // verus!
