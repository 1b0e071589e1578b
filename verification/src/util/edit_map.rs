//! Edits to the log that are collected first and applied in one pass.
//!
//! Resolvers describe what they want changed by index into the log as the
//! main pass left it.  Nothing moves until all of them have run, so no
//! resolver sees indices shifted by another.
use vstd::prelude::*;
use crate::token::{Event, Link};

verus! {

/// One edit: at `index`, take `remove` events out and put `add` in.
pub struct Edit {
    /// Where to edit, as an index into the log before any edit.
    pub index: usize,
    /// How many events to take out.
    pub remove: usize,
    /// The events to put in.
    pub add: Vec<Event>,
}

/// The mathematical value of an edit.
pub struct EditView {
    /// Where to edit.
    pub index: usize,
    /// How many events to take out.
    pub remove: usize,
    /// The events to put in.
    pub add: Seq<Event>,
}

impl View for Edit {
    type V = EditView;

    open spec fn view(&self) -> EditView {
        EditView { index: self.index, remove: self.remove, add: self.add@ }
    }
}

/// The edits, sorted by index, at most one for each index.
pub struct EditMap {
    /// The edits.
    pub map: Vec<Edit>,
}

impl View for EditMap {
    type V = Seq<EditView>;

    open spec fn view(&self) -> Seq<EditView> {
        Seq::new(self.map@.len(), |i: int| self.map@[i]@)
    }
}

/// Whether `edits` is sorted by index, with no index twice.
pub open spec fn sorted(edits: Seq<EditView>) -> bool {
    forall|i: int, j: int| 0 <= i < j < edits.len() ==> edits[i].index < edits[j].index
}

/// Whether `edits` can be applied to a log of `len` events: it is sorted, and
/// no edit takes out what lies at or after the next edit, or after the end.
pub open spec fn applicable(edits: Seq<EditView>, len: nat) -> bool {
    &&& sorted(edits)
    &&& forall|i: int|
        0 <= i < edits.len() ==> (#[trigger] edits[i]).index + edits[i].remove <= if i + 1 < edits.len() {
            edits[i + 1].index as int
        } else {
            len as int
        }
}

/// Whether `edits` only puts events in, at places in a log of `len` events.
pub open spec fn insertions(edits: Seq<EditView>, len: nat) -> bool {
    forall|i: int| 0 <= i < edits.len() ==> (#[trigger] edits[i]).remove == 0 && edits[i].index <= len
}

/// The number of edits in `edits` from `from` on whose index is less than
/// `index`, plus `from`: the place of the edit for `index`.
pub open spec fn place_of(edits: Seq<EditView>, index: usize, from: int) -> int
    decreases edits.len() - from,
{
    if 0 <= from < edits.len() && edits[from].index < index {
        place_of(edits, index, from + 1)
    } else {
        from
    }
}

/// `edits` with one more edit: nothing if the edit is empty; merged into
/// the edit for the same index if there is one, after what that edit puts
/// in; else put in its place by index.
pub open spec fn added(edits: Seq<EditView>, index: usize, remove: usize, add: Seq<Event>) -> Seq<EditView> {
    let at = place_of(edits, index, 0);
    if remove == 0 && add.len() == 0 {
        edits
    } else if 0 <= at < edits.len() && edits[at].index == index {
        edits.update(
            at,
            EditView { index, remove: (edits[at].remove + remove) as usize, add: edits[at].add + add },
        )
    } else {
        edits.insert(at, EditView { index, remove, add })
    }
}

/// What `edits` from the `k`-th on make of `events` from `pos` on.
pub open spec fn spliced_from(events: Seq<Event>, edits: Seq<EditView>, k: int, pos: int) -> Seq<Event>
    decreases edits.len() - k,
{
    if 0 <= k < edits.len() {
        events.subrange(pos, edits[k].index as int) + edits[k].add + spliced_from(
            events,
            edits,
            k + 1,
            edits[k].index + edits[k].remove,
        )
    } else {
        events.skip(pos)
    }
}

/// `events` with the events taken out and put in that `edits` asks for.
pub open spec fn spliced(events: Seq<Event>, edits: Seq<EditView>) -> Seq<Event> {
    spliced_from(events, edits, 0, 0)
}

/// How many events more the log holds once the first `k` edits are applied.
pub open spec fn grown(edits: Seq<EditView>, k: int) -> int
    decreases k,
{
    if k <= 0 {
        0
    } else {
        grown(edits, k - 1) + edits[k - 1].add.len() - edits[k - 1].remove
    }
}

/// Whether an edit takes out the event at `index`.
pub open spec fn removed(edits: Seq<EditView>, index: int) -> bool {
    exists|k: int| 0 <= k < edits.len() && (#[trigger] edits[k]).index <= index < edits[k].index + edits[k].remove
}

/// The index at which the event at `index` stands once the edits are
/// applied, if it is not taken out.
pub open spec fn landing(edits: Seq<EditView>, index: int) -> int {
    index + grown(edits, place_of(edits, (index + 1) as usize, 0))
}

/// The new index of the event at `index`, or `None` if it is taken out.
pub open spec fn placed(edits: Seq<EditView>, index: int) -> Option<usize> {
    if removed(edits, index) {
        None
    } else {
        Some(landing(edits, index) as usize)
    }
}

/// `event`, which stands at `index`, with its tie to an earlier span
/// pointing to where that span stands once the edits are applied.  The tie
/// is cut if the span is taken out, or does not lie before the event.
pub open spec fn relink(event: Event, index: int, edits: Seq<EditView>) -> Event {
    match event.link {
        Some(link) => match link.previous {
            Some(previous) => Event {
                link: Some(
                    Link {
                        previous: if previous < index {
                            placed(edits, previous as int)
                        } else {
                            None
                        },
                        ..link
                    },
                ),
                ..event
            },
            None => event,
        },
        None => event,
    }
}

/// `events` with every tie rewritten for the edits.
pub open spec fn relinked(events: Seq<Event>, edits: Seq<EditView>) -> Seq<Event> {
    Seq::new(events.len(), |i: int| relink(events[i], i, edits))
}

/// The log that results from `events` when `edits` are applied to it:
/// events are taken out and put in, and the ties between the events that
/// stay are rewritten to their new indices.
pub open spec fn applied(events: Seq<Event>, edits: Seq<EditView>) -> Seq<Event> {
    spliced(relinked(events, edits), edits)
}

/// The place of an edit lies in range, after every edit with a smaller
/// index and at or before every other.
pub proof fn lemma_place_of(edits: Seq<EditView>, index: usize, from: int)
    requires
        sorted(edits),
        0 <= from <= edits.len(),
        forall|i: int| 0 <= i < from ==> edits[i].index < index,
    ensures
        from <= place_of(edits, index, from) <= edits.len(),
        forall|i: int| 0 <= i < place_of(edits, index, from) ==> edits[i].index < index,
        forall|i: int| place_of(edits, index, from) <= i < edits.len() ==> edits[i].index >= index,
    decreases edits.len() - from,
{
    if from < edits.len() && edits[from].index < index {
        lemma_place_of(edits, index, from + 1);
    }
}

/// Adding an edit keeps the edits sorted.
pub proof fn lemma_added_sorted(edits: Seq<EditView>, index: usize, remove: usize, add: Seq<Event>)
    requires
        sorted(edits),
    ensures
        sorted(added(edits, index, remove, add)),
{
    lemma_place_of(edits, index, 0);
    let at = place_of(edits, index, 0);
    let after = added(edits, index, remove, add);
    if remove == 0 && add.len() == 0 {
    } else if at < edits.len() && edits[at].index == index {
    } else {
        assert forall|i: int, j: int| 0 <= i < j < after.len() implies after[i].index < after[j].index by {
            if i < at && j > at {
                assert(after[j] == edits[j - 1]);
            } else if i > at {
                assert(after[i] == edits[i - 1]);
                assert(after[j] == edits[j - 1]);
            }
        }
    }
}

/// Adding an edit that only puts events in, at a place in the log, to edits
/// that only do the same gives such edits again.
pub proof fn lemma_added_insertion(edits: Seq<EditView>, len: nat, index: usize, add: Seq<Event>)
    requires
        sorted(edits),
        insertions(edits, len),
        index <= len,
    ensures
        insertions(added(edits, index, 0, add), len),
{
    lemma_place_of(edits, index, 0);
    let at = place_of(edits, index, 0);
    let after = added(edits, index, 0, add);
    assert forall|i: int| 0 <= i < after.len() implies (#[trigger] after[i]).remove == 0 && after[i].index
        <= len by {
        if add.len() == 0 {
        } else if at < edits.len() && edits[at].index == index {
            if i != at {
                assert(after[i] == edits[i]);
            }
        } else if i < at {
            assert(after[i] == edits[i]);
        } else if i > at {
            assert(after[i] == edits[i - 1]);
        }
    }
}

/// Sorted edits that only put events in, at places in the log, can be
/// applied to it.
pub proof fn lemma_insertions_applicable(edits: Seq<EditView>, len: nat)
    requires
        sorted(edits),
        insertions(edits, len),
    ensures
        applicable(edits, len),
{
}

impl EditMap {
    /// Whether the edits are in order.
    pub open spec fn wf(&self) -> bool {
        sorted(self@)
    }

    /// No edits.
    pub fn new() -> (map: EditMap)
        ensures
            map@ == Seq::<EditView>::empty(),
            map.wf(),
    {
        let map = EditMap { map: Vec::new() };
        assert(map@ =~= Seq::<EditView>::empty());
        map
    }

    /// Note an edit: at `index`, take `remove` events out and put `add` in.
    pub fn add(&mut self, index: usize, remove: usize, add: Vec<Event>)
        requires
            old(self).wf(),
            forall|i: int|
                0 <= i < old(self)@.len() && (#[trigger] old(self)@[i]).index == index ==> old(self)@[i].remove
                    + remove <= usize::MAX,
        ensures
            final(self).wf(),
            final(self)@ == added(old(self)@, index, remove, add@),
    {
        let ghost wanted = add@;
        proof {
            lemma_added_sorted(self@, index, remove, add@);
            lemma_place_of(self@, index, 0);
        }
        if remove == 0 && add.len() == 0 {
            return ;
        }
        let mut at: usize = 0;
        while at < self.map.len() && self.map[at].index < index
            invariant
                at <= self.map.len(),
                *self == *old(self),
                place_of(self@, index, at as int) == place_of(self@, index, 0),
            decreases self.map.len() - at,
        {
            at += 1;
        }
        if at < self.map.len() && self.map[at].index == index {
            let mut edit = self.map.remove(at);
            let mut rest = add;
            assert(edit@ == old(self)@[at as int]);
            edit.remove = edit.remove + remove;
            edit.add.append(&mut rest);
            self.map.insert(at, edit);
            assert(self@ =~= added(old(self)@, index, remove, wanted));
        } else {
            self.map.insert(at, Edit { index, remove, add });
            assert(self@ =~= added(old(self)@, index, remove, wanted));
        }
    }

    /// Apply the edits to `events`, and forget them.
    pub fn consume(&mut self, events: &mut Vec<Event>)
        requires
            applicable(old(self)@, old(events)@.len()),
        ensures
            final(events)@ == applied(old(events)@, old(self)@),
            final(self)@ == Seq::<EditView>::empty(),
            final(self).wf(),
    {
        let ghost edits = self@;
        let ghost source = relinked(events@, edits);
        let mut result: Vec<Event> = Vec::new();
        let mut places: Vec<Option<usize>> = Vec::new();
        let mut pos: usize = 0;
        let mut k: usize = 0;
        assert(result@ + spliced(source, edits) =~= spliced(source, edits));
        while k < self.map.len()
            invariant
                *self == *old(self),
                *events == *old(events),
                edits == self@,
                source == relinked(events@, edits),
                applicable(edits, events@.len()),
                k <= self.map.len(),
                pos <= events.len(),
                k < self.map.len() ==> pos <= edits[k as int].index,
                k > 0 ==> edits[k - 1].index + edits[k - 1].remove <= pos,
                result@.len() == pos + grown(edits, k as int),
                places@.len() == pos,
                forall|j: int| 0 <= j < pos ==> places@[j] == placed(edits, j),
                result@ + spliced_from(source, edits, k as int, pos as int) == spliced(source, edits),
            decreases self.map.len() - k,
        {
            let ghost edit = edits[k as int];
            let ghost before = result@;
            let index = self.map[k].index;
            let remove = self.map[k].remove;
            proof {
                lemma_in_range(edits, events@.len(), k as int);
                if k + 1 < edits.len() {
                    assert(edits[k as int].index + edits[k as int].remove <= edits[k + 1].index);
                }
            }
            copy_kept(&mut result, &mut places, events, pos, index, Ghost(edits), Ghost(k as int));
            copy_range(&mut result, &self.map[k].add, 0, self.map[k].add.len());
            let mut skipped: usize = 0;
            while skipped < remove
                invariant
                    skipped <= remove,
                    index + remove <= events.len(),
                    edit == edits[k as int],
                    0 <= k < edits.len(),
                    index == edit.index,
                    remove == edit.remove,
                    places@.len() == index + skipped,
                    forall|j: int| 0 <= j < index + skipped ==> places@[j] == placed(edits, j),
                decreases remove - skipped,
            {
                assert(removed(edits, index + skipped)) by {
                    assert(edits[k as int].index <= index + skipped < edits[k as int].index + edits[k
                        as int].remove);
                }
                places.push(None);
                skipped += 1;
            }
            proof {
                let rest = spliced_from(source, edits, k + 1, index + remove);
                assert(edit.add.subrange(0, edit.add.len() as int) =~= edit.add);
                assert(result@ + rest =~= before + (source.subrange(pos as int, index as int) + edit.add
                    + rest));
            }
            pos = index + remove;
            k += 1;
        }
        copy_kept(&mut result, &mut places, events, pos, events.len(), Ghost(edits), Ghost(k as int));
        assert(source.subrange(pos as int, events@.len() as int) =~= source.skip(pos as int));
        *events = result;
        self.map = Vec::new();
        assert(self@ =~= Seq::<EditView>::empty());
    }
}

/// An edit of applicable edits ends at or before the place of every later
/// edit.
pub proof fn lemma_edits_in_order(edits: Seq<EditView>, len: nat, i: int, j: int)
    requires
        applicable(edits, len),
        0 <= i < j < edits.len(),
    ensures
        edits[i].index + edits[i].remove <= edits[j].index,
    decreases j - i,
{
    if i + 1 < j {
        lemma_edits_in_order(edits, len, i + 1, j);
        assert(edits[i].index + edits[i].remove <= edits[i + 1].index);
    } else {
        assert(edits[i].index + edits[i].remove <= edits[i + 1].index);
    }
}

/// An event between the `k - 1`-th and the `k`-th edit is not taken out, and
/// stands as many places further as the first `k` edits make the log grow.
pub proof fn lemma_placed_between(edits: Seq<EditView>, len: nat, k: int, index: int)
    requires
        applicable(edits, len),
        0 <= k <= edits.len(),
        0 <= index < len <= usize::MAX,
        k > 0 ==> edits[k - 1].index + edits[k - 1].remove <= index,
        k < edits.len() ==> index < edits[k].index,
    ensures
        !removed(edits, index),
        landing(edits, index) == index + grown(edits, k),
{
    assert forall|t: int| 0 <= t < edits.len() implies !((#[trigger] edits[t]).index <= index < edits[t].index
        + edits[t].remove) by {
        if t < k - 1 {
            lemma_edits_in_order(edits, len, t, k - 1);
        } else if t > k {
            assert(edits[k].index < edits[t].index);
        }
    }
    lemma_place_of(edits, (index + 1) as usize, 0);
    let place = place_of(edits, (index + 1) as usize, 0);
    if place < k {
        assert(edits[place].index >= index + 1);
        if place < k - 1 {
            assert(edits[place].index < edits[k - 1].index);
        }
    } else if place > k {
        assert(edits[k].index < index + 1);
    }
}

/// Put the events of `source` from `from` up to `to`, which lie between the
/// `k - 1`-th and the `k`-th edit, at the end of `result`, with their ties
/// rewritten, and note where each of them stands.
fn copy_kept(
    result: &mut Vec<Event>,
    places: &mut Vec<Option<usize>>,
    source: &Vec<Event>,
    from: usize,
    to: usize,
    Ghost(edits): Ghost<Seq<EditView>>,
    Ghost(k): Ghost<int>,
)
    requires
        applicable(edits, source@.len()),
        0 <= k <= edits.len(),
        from <= to <= source.len(),
        k > 0 ==> edits[k - 1].index + edits[k - 1].remove <= from,
        k < edits.len() ==> to <= edits[k].index,
        old(result)@.len() == from + grown(edits, k),
        old(places)@.len() == from,
        forall|j: int| 0 <= j < from ==> old(places)@[j] == placed(edits, j),
    ensures
        final(result)@ == old(result)@ + relinked(source@, edits).subrange(from as int, to as int),
        final(result)@.len() == to + grown(edits, k),
        final(places)@.len() == to,
        forall|j: int| 0 <= j < to ==> final(places)@[j] == placed(edits, j),
{
    let mut at: usize = from;
    assert(result@ =~= old(result)@ + relinked(source@, edits).subrange(from as int, at as int));
    while at < to
        invariant
            applicable(edits, source@.len()),
            0 <= k <= edits.len(),
            from <= at <= to <= source.len(),
            k > 0 ==> edits[k - 1].index + edits[k - 1].remove <= from,
            k < edits.len() ==> to <= edits[k].index,
            result@ == old(result)@ + relinked(source@, edits).subrange(from as int, at as int),
            result@.len() == at + grown(edits, k),
            places@.len() == at,
            forall|j: int| 0 <= j < at ==> places@[j] == placed(edits, j),
        decreases to - at,
    {
        let event = source[at];
        let moved = match event.link {
            Some(link) => match link.previous {
                Some(previous) => {
                    let target = if previous < at {
                        places[previous]
                    } else {
                        None
                    };
                    Event { link: Some(Link { previous: target, ..link }), ..event }
                },
                None => event,
            },
            None => event,
        };
        assert(moved == relink(source@[at as int], at as int, edits));
        proof {
            lemma_placed_between(edits, source@.len(), k, at as int);
        }
        places.push(Some(result.len()));
        result.push(moved);
        at += 1;
        assert(result@ =~= old(result)@ + relinked(source@, edits).subrange(from as int, at as int));
    }
}

/// Put the events of `source` from `from` up to `to` at the end of `result`.
fn copy_range(result: &mut Vec<Event>, source: &Vec<Event>, from: usize, to: usize)
    requires
        from <= to <= source.len(),
    ensures
        final(result)@ == old(result)@ + source@.subrange(from as int, to as int),
{
    let mut at: usize = from;
    assert(result@ =~= old(result)@ + source@.subrange(from as int, at as int));
    while at < to
        invariant
            from <= at <= to <= source.len(),
            result@ == old(result)@ + source@.subrange(from as int, at as int),
        decreases to - at,
    {
        result.push(source[at]);
        at += 1;
        assert(result@ =~= old(result)@ + source@.subrange(from as int, at as int));
    }
}

/// Every edit of applicable edits ends within the log.
pub proof fn lemma_in_range(edits: Seq<EditView>, len: nat, k: int)
    requires
        applicable(edits, len),
        0 <= k < edits.len(),
    ensures
        edits[k].index + edits[k].remove <= len,
    decreases edits.len() - k,
{
    if k + 1 < edits.len() {
        lemma_in_range(edits, len, k + 1);
    }
}

} // verus!
