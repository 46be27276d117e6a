use vstd::prelude::*;

use crate::error::UfoError;
use crate::labels::{label_lt, LabelMap};

verus! {

/// One entry of a beam line: an element, or another line, named by its label.
#[derive(Clone, Debug, PartialEq)]
pub enum LineItem {
    Element(String),
    Line(String),
}

/// A named sequence of elements and sub-lines.
#[derive(Clone, Debug, PartialEq)]
pub struct Line {
    pub label: String,
    pub items: Vec<LineItem>,
}

/// A line item by kind and label.
pub enum ItemModel {
    Element(Seq<char>),
    Line(Seq<char>),
}

/// The kind and label of a line item.
pub open spec fn item_model(i: LineItem) -> ItemModel {
    match i {
        LineItem::Element(l) => ItemModel::Element(l@),
        LineItem::Line(l) => ItemModel::Line(l@),
    }
}

/// The kinds and labels of line items.
pub open spec fn item_models(s: Seq<LineItem>) -> Seq<ItemModel> {
    s.map_values(|i: LineItem| item_model(i))
}

/// Elements and lines, each keyed by its label.
///
/// The element type is left open: the library only reads labels and line structure.
#[derive(Debug)]
pub struct Lattice<E> {
    pub elements: LabelMap<E>,
    pub lines: LabelMap<Line>,
}

/// The labels of the elements that `items` expands to within `fuel` levels of line nesting,
/// or the first label that names nothing of its kind; `None` when the nesting goes deeper.
///
/// Items are expanded in order; an element label must name an element, a line label a line.
pub open spec fn flatten_items(
    elements: Set<Seq<char>>,
    lines: Map<Seq<char>, Line>,
    items: Seq<LineItem>,
    fuel: nat,
) -> Option<Result<Seq<Seq<char>>, Seq<char>>>
    decreases fuel, items.len(),
{
    if items.len() == 0 {
        Some(Ok(seq![]))
    } else {
        match items[0] {
            LineItem::Element(label) => if elements.contains(label@) {
                prepend(
                    seq![label@],
                    flatten_items(elements, lines, items.drop_first(), fuel),
                )
            } else {
                Some(Err(label@))
            },
            LineItem::Line(label) => if !lines.contains_key(label@) {
                Some(Err(label@))
            } else if fuel == 0 {
                None
            } else {
                match flatten_items(elements, lines, lines[label@].items@, (fuel - 1) as nat) {
                    None => None,
                    Some(Err(e)) => Some(Err(e)),
                    Some(Ok(a)) => prepend(a, flatten_items(elements, lines, items.drop_first(), fuel)),
                }
            },
        }
    }
}

/// `r` with `a` put in front of its labels.
pub open spec fn prepend(a: Seq<Seq<char>>, r: Option<Result<Seq<Seq<char>>, Seq<char>>>) -> Option<
    Result<Seq<Seq<char>>, Seq<char>>,
> {
    match r {
        Some(Ok(b)) => Some(Ok(a + b)),
        other => other,
    }
}

impl<E> Lattice<E> {
    /// What expanding `line` gives within `fuel` levels of nesting.
    pub open spec fn flatten_within_spec(&self, line: Line, fuel: nat) -> Option<
        Result<Seq<Seq<char>>, Seq<char>>,
    > {
        flatten_items(self.elements@.dom(), self.lines@, line.items@, fuel)
    }

    /// Whether expanding `line` ends within `usize::MAX` levels of nesting. Expansion goes
    /// on forever only when it reaches a cycle of lines.
    pub open spec fn flatten_ends(&self, line: Line) -> bool {
        self.flatten_within_spec(line, usize::MAX as nat) is Some
    }

    /// What expanding `line` gives, when it ends: the labels of its elements in order, or
    /// the first label that names nothing of its kind.
    pub open spec fn flatten_spec(&self, line: Line) -> Result<Seq<Seq<char>>, Seq<char>> {
        self.flatten_within_spec(line, usize::MAX as nat)->0
    }
}

proof fn lemma_prepend_assoc(a: Seq<Seq<char>>, b: Seq<Seq<char>>, r: Option<Result<Seq<Seq<char>>, Seq<char>>>)
    ensures
        prepend(a, prepend(b, r)) == prepend(a + b, r),
{
    match r {
        Some(Ok(c)) => {
            assert(a + (b + c) =~= (a + b) + c);
        },
        _ => {},
    }
}

/// Whether `out` is `before` followed by the elements named by `labels`.
pub open spec fn extends_with<E>(
    out: Seq<&E>,
    before: Seq<&E>,
    elements: Map<Seq<char>, E>,
    labels: Seq<Seq<char>>,
) -> bool {
    &&& out.len() == before.len() + labels.len()
    &&& forall|k: int| 0 <= k < before.len() ==> out[k] == before[k]
    &&& forall|k: int| 0 <= k < labels.len() ==> *(#[trigger] out[before.len() + k]) == elements[labels[k]]
}

impl Line {
    /// An empty line with the given label.
    pub fn new(label: &str) -> (l: Line)
        ensures
            l.label@ == label@,
            l.items@.len() == 0,
    {
        Line { label: label.to_string(), items: Vec::new() }
    }

    /// Expands `items` into `out` with a budget of `fuel` nesting levels.
    fn flatten_into<'a, E>(
        items: &'a Vec<LineItem>,
        lattice: &'a Lattice<E>,
        out: &mut Vec<&'a E>,
        fuel: usize,
    ) -> (r: Option<Result<(), UfoError>>)
        ensures
            match flatten_items(lattice.elements@.dom(), lattice.lines@, items@, fuel as nat) {
                None => r is None,
                Some(Err(label)) => r matches Some(Err(UfoError::UnknownReference(s))) && s@ == label,
                Some(Ok(labels)) => r matches Some(Ok(_)) && extends_with(
                    final(out)@,
                    old(out)@,
                    lattice.elements@,
                    labels,
                ),
            },
        decreases fuel,
    {
        let ghost before = out@;
        let ghost elements = lattice.elements@.dom();
        let ghost lines = lattice.lines@;
        let ghost whole = flatten_items(elements, lines, items@, fuel as nat);
        let ghost mut done: Seq<Seq<char>> = seq![];
        let mut k: usize = 0;
        assert(items@.skip(0) =~= items@);
        while k < items.len()
            invariant
                k <= items.len(),
                elements == lattice.elements@.dom(),
                lines == lattice.lines@,
                whole == flatten_items(elements, lines, items@, fuel as nat),
                whole == prepend(done, flatten_items(elements, lines, items@.skip(k as int), fuel as nat)),
                extends_with(out@, before, lattice.elements@, done),
            decreases items.len() - k,
        {
            let ghost rest = items@.skip(k as int);
            assert(rest.drop_first() =~= items@.skip(k + 1));
            assert(rest[0] == items@[k as int]);
            match &items[k] {
                LineItem::Element(label) => {
                    match lattice.elements.get(label.as_str()) {
                        Some(element) => {
                            let ghost prev = out@;
                            out.push(element);
                            proof {
                                lemma_prepend_assoc(done, seq![label@], flatten_items(elements, lines, items@.skip(k + 1), fuel as nat));
                                assert forall|j: int| 0 <= j < done.len() + 1 implies *(#[trigger] out@[before.len() + j]) == lattice.elements@[done.push(label@)[j]] by {
                                    if j < done.len() {
                                        assert(out@[before.len() + j] == prev[before.len() + j]);
                                    }
                                }
                                assert(done + seq![label@] =~= done.push(label@));
                                done = done.push(label@);
                            }
                        },
                        None => {
                            return Some(Err(UfoError::UnknownReference(label.clone())));
                        },
                    }
                },
                LineItem::Line(label) => {
                    match lattice.lines.get(label.as_str()) {
                        Some(line) => {
                            if fuel == 0 {
                                return None;
                            }
                            let ghost prev = out@;
                            match Line::flatten_into(&line.items, lattice, out, fuel - 1) {
                                None => {
                                    return None;
                                },
                                Some(Err(e)) => {
                                    return Some(Err(e));
                                },
                                Some(Ok(())) => {
                                    proof {
                                        let a = flatten_items(elements, lines, line.items@, (fuel - 1) as nat)->0->Ok_0;
                                        lemma_prepend_assoc(done, a, flatten_items(elements, lines, items@.skip(k + 1), fuel as nat));
                                        assert forall|j: int| 0 <= j < done.len() + a.len() implies *(#[trigger] out@[before.len() + j]) == lattice.elements@[(done + a)[j]] by {
                                            if j < done.len() {
                                                assert(out@[before.len() + j] == prev[before.len() + j]);
                                            } else {
                                                assert(out@[before.len() + j] == out@[prev.len() + (j - done.len())]);
                                            }
                                        }
                                        done = done + a;
                                    }
                                },
                            }
                        },
                        None => {
                            return Some(Err(UfoError::UnknownReference(label.clone())));
                        },
                    }
                },
            }
            k = k + 1;
        }
        proof {
            assert(items@.skip(k as int) =~= Seq::<LineItem>::empty());
            assert(done + Seq::<Seq<char>>::empty() =~= done);
        }
        Some(Ok(()))
    }
}

impl Line {
    /// The elements of the line, sub-lines expanded in place, if the expansion stays within
    /// `fuel` levels of nesting; `None` otherwise.
    ///
    /// Fails with `UnknownReference` at the first label that names nothing of its kind.
    pub fn flatten_within<'a, E>(&'a self, lattice: &'a Lattice<E>, fuel: usize) -> (r: Option<
        Result<Vec<&'a E>, UfoError>,
    >)
        ensures
            match lattice.flatten_within_spec(*self, fuel as nat) {
                None => r is None,
                Some(Err(label)) => r matches Some(Err(UfoError::UnknownReference(s))) && s@ == label,
                Some(Ok(labels)) => r matches Some(Ok(v)) && extends_with(
                    v@,
                    Seq::empty(),
                    lattice.elements@,
                    labels,
                ),
            },
    {
        let mut out: Vec<&'a E> = Vec::new();
        match Line::flatten_into(&self.items, lattice, &mut out, fuel) {
            None => None,
            Some(Err(e)) => Some(Err(e)),
            Some(Ok(())) => Some(Ok(out)),
        }
    }

    /// The elements of the line, sub-lines expanded in place.
    ///
    /// Fails with `UnknownReference` at the first label that names nothing of its kind.
    pub fn flatten<'a, E>(&'a self, lattice: &'a Lattice<E>) -> (r: Result<Vec<&'a E>, UfoError>)
        requires
            lattice.flatten_ends(*self),
        ensures
            match lattice.flatten_spec(*self) {
                Err(label) => r matches Err(UfoError::UnknownReference(s)) && s@ == label,
                Ok(labels) => r matches Ok(v) && extends_with(
                    v@,
                    Seq::empty(),
                    lattice.elements@,
                    labels,
                ),
            },
    {
        match self.flatten_within(lattice, usize::MAX) {
            Some(r) => r,
            None => vstd::pervasive::unreached(),
        }
    }

    /// The number of elements of the line, sub-lines expanded.
    pub fn count<E>(&self, lattice: &Lattice<E>) -> (r: Result<usize, UfoError>)
        requires
            lattice.flatten_ends(*self),
        ensures
            match lattice.flatten_spec(*self) {
                Err(label) => r matches Err(UfoError::UnknownReference(s)) && s@ == label,
                Ok(labels) => r == Ok::<usize, UfoError>(labels.len() as usize),
            },
    {
        let flat = self.flatten(lattice)?;
        Ok(flat.len())
    }
}

impl Line {
    /// The positions, in the expanded line, of the elements on which `predicate` holds, in
    /// increasing order.
    ///
    /// Fails with `UnknownReference` at the first label that names nothing of its kind.
    pub fn find<E, F: Fn(&E) -> bool>(&self, lattice: &Lattice<E>, predicate: F) -> (r: Result<
        Vec<usize>,
        UfoError,
    >)
        requires
            lattice.flatten_ends(*self),
            forall|e: &E| #[trigger] predicate.requires((e,)),
        ensures
            match lattice.flatten_spec(*self) {
                Err(label) => r matches Err(UfoError::UnknownReference(s)) && s@ == label,
                Ok(labels) => r matches Ok(idx) && {
                    &&& forall|a: int, b: int| 0 <= a < b < idx@.len() ==> idx@[a] < idx@[b]
                    &&& forall|a: int| 0 <= a < idx@.len() ==> idx@[a] < labels.len()
                    &&& forall|i: int|
                        0 <= i < labels.len() ==> (idx@.contains(i as usize) ==> predicate.ensures(
                            (&lattice.elements@[#[trigger] labels[i]],),
                            true,
                        )) && (!idx@.contains(i as usize) ==> predicate.ensures(
                            (&lattice.elements@[labels[i]],),
                            false,
                        ))
                },
            },
    {
        let flat = self.flatten(lattice)?;
        let ghost labels = lattice.flatten_spec(*self)->Ok_0;
        assert forall|k: int| 0 <= k < labels.len() implies *(#[trigger] flat@[k])
            == lattice.elements@[labels[k]] by {
            assert(*flat@[Seq::<&E>::empty().len() + k] == lattice.elements@[labels[k]]);
        }
        let mut idx: Vec<usize> = Vec::new();
        let mut i: usize = 0;
        while i < flat.len()
            invariant
                i <= flat@.len(),
                flat@.len() == labels.len(),
                forall|k: int| 0 <= k < labels.len() ==> *(#[trigger] flat@[k]) == lattice.elements@[labels[k]],
                forall|e: &E| #[trigger] predicate.requires((e,)),
                forall|a: int, b: int| 0 <= a < b < idx@.len() ==> idx@[a] < idx@[b],
                forall|a: int| 0 <= a < idx@.len() ==> idx@[a] < i,
                forall|k: int|
                    0 <= k < i ==> (idx@.contains(k as usize) ==> predicate.ensures(
                        (&lattice.elements@[#[trigger] labels[k]],),
                        true,
                    )) && (!idx@.contains(k as usize) ==> predicate.ensures(
                        (&lattice.elements@[labels[k]],),
                        false,
                    )),
            decreases flat@.len() - i,
        {
            let hit = predicate(flat[i]);
            assert(*flat@[i as int] == lattice.elements@[labels[i as int]]);
            let ghost before = idx@;
            if hit {
                idx.push(i);
            }
            proof {
                assert forall|k: int| 0 <= k < i + 1 implies (idx@.contains(k as usize) ==> predicate.ensures(
                    (&lattice.elements@[#[trigger] labels[k]],),
                    true,
                )) && (!idx@.contains(k as usize) ==> predicate.ensures(
                    (&lattice.elements@[labels[k]],),
                    false,
                )) by {
                    if k < i {
                        if idx@.contains(k as usize) && !before.contains(k as usize) {
                            let w = choose|w: int| 0 <= w < idx@.len() && idx@[w] == k as usize;
                            assert(w == before.len());
                        }
                        if before.contains(k as usize) {
                            let w = choose|w: int| 0 <= w < before.len() && before[w] == k as usize;
                            assert(idx@[w] == k as usize);
                        }
                    } else {
                        if !hit {
                            if idx@.contains(k as usize) {
                                let w = choose|w: int| 0 <= w < idx@.len() && idx@[w] == k as usize;
                                assert(before[w] < i);
                            }
                        } else {
                            assert(idx@[before.len() as int] == i);
                        }
                    }
                }
            }
            i = i + 1;
        }
        Ok(idx)
    }
}

impl<E> Lattice<E> {
    /// A lattice with no element and no line.
    pub fn new() -> (l: Lattice<E>)
        ensures
            l.elements@ == Map::<Seq<char>, E>::empty(),
            l.lines@ == Map::<Seq<char>, Line>::empty(),
    {
        Lattice { elements: LabelMap::new(), lines: LabelMap::new() }
    }

    /// Stores `element` under `label`, replacing any element of that label.
    pub fn insert_element(&mut self, label: String, element: E)
        ensures
            final(self).elements@ == old(self).elements@.insert(label@, element),
            final(self).lines@ == old(self).lines@,
    {
        self.elements.insert(label, element);
    }

    /// Stores `line` under its label, replacing any line of that label.
    pub fn insert_line(&mut self, line: Line)
        ensures
            final(self).lines@ == old(self).lines@.insert(line.label@, line),
            final(self).elements@ == old(self).elements@,
    {
        let label = line.label.clone();
        self.lines.insert(label, line);
    }

    /// The line of the given label.
    pub fn line(&self, label: &str) -> (r: Result<&Line, UfoError>)
        ensures
            self.lines@.contains_key(label@) ==> (r matches Ok(l) && *l == self.lines@[label@]),
            !self.lines@.contains_key(label@) ==> (r matches Err(UfoError::UnknownReference(s))
                && s@ == label@),
    {
        match self.lines.get(label) {
            Some(line) => Ok(line),
            None => Err(UfoError::UnknownReference(label.to_string())),
        }
    }
}


/// The line to work on: the one asked for; else `RING`, if there is such a line; else the
/// first line in label order, if there is any.
pub fn select_line_name<E>(lattice: &Lattice<E>, requested: Option<String>) -> (r: Option<String>)
    ensures
        match requested {
            Some(s) => r matches Some(t) && t@ == s@,
            None => if lattice.lines@.contains_key("RING"@) {
                r matches Some(t) && t@ == "RING"@
            } else if lattice.lines@.dom().len() == 0 {
                r is None
            } else {
                r matches Some(t) && lattice.lines@.contains_key(t@) && forall|k: Seq<char>|
                    #[trigger] lattice.lines@.contains_key(k) && k != t@ ==> label_lt(t@, k)
            },
        },
{
    match requested {
        Some(s) => Some(s),
        None => {
            if lattice.lines.contains_key("RING") {
                Some("RING".to_string())
            } else {
                let n = lattice.lines.len();
                let keys = lattice.lines.keys();
                if n == 0 {
                    None
                } else {
                    let first = keys[0].clone();
                    proof {
                        let ks = lattice.lines.key_seq();
                        assert(keys@[0]@ == ks[0]);
                        assert(first@ == ks[0]);
                        assert(ks.contains(ks[0]));
                        assert forall|k: Seq<char>|
                            #[trigger] lattice.lines@.contains_key(k) && k != first@ implies label_lt(
                            first@,
                            k,
                        ) by {
                            assert(ks.contains(k));
                            let j = choose|j: int| 0 <= j < ks.len() && ks[j] == k;
                            assert(j != 0);
                            assert(crate::labels::sorted_labels(ks));
                            assert(label_lt(ks[0], ks[j]));
                        }
                    }
                    Some(first)
                }
            }
        },
    }
}

} // verus!
