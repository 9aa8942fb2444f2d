//! The record of shape that accompanies a nested value: one level for each
//! list, fixed-size list or struct between the root of the schema and a leaf.

use vstd::prelude::*;

verus! {

/// A marker for one level of nesting on the path from the schema root to a
/// leaf.  The flag says whether values at that level may be null.
#[derive(Clone, Copy, Debug, PartialEq, Eq, Structural)]
pub enum InitNested {
    Primitive(bool),
    List(bool),
    /// A fixed-size list and the number of items in each of its lists.
    FixedSizeList(bool, usize),
    Struct(bool),
}

/// What one level of shape holds besides its length and validity.
#[derive(Clone, Debug, PartialEq, Eq)]
pub enum NestedContent {
    Primitive,
    /// The start of each list in the level below.
    List { offsets: Vec<usize> },
    FixedSizeList { width: usize },
    Struct,
}

/// One level of shape.
#[derive(Clone, Debug, PartialEq, Eq)]
pub struct Nested {
    /// One flag for each value at this level, `false` where it is null.
    pub validity: Option<Vec<bool>>,
    /// The number of values at this level.
    pub length: usize,
    pub content: NestedContent,
}

/// The levels of shape of one value, outermost first.
#[derive(Clone, Debug, PartialEq, Eq)]
pub struct NestedState {
    pub nested: Vec<Nested>,
}

/// The model of [`NestedContent`].
pub enum NestedContentView {
    Primitive,
    List { offsets: Seq<usize> },
    FixedSizeList { width: usize },
    Struct,
}

/// The model of [`Nested`].
pub struct NestedView {
    pub validity: Option<Seq<bool>>,
    pub length: usize,
    pub content: NestedContentView,
}

/// The model of an optional validity bitmap.
pub open spec fn validity_view(validity: Option<Vec<bool>>) -> Option<Seq<bool>> {
    match validity {
        Some(bits) => Some(bits@),
        None => None,
    }
}

impl View for NestedContent {
    type V = NestedContentView;

    open spec fn view(&self) -> NestedContentView {
        match *self {
            NestedContent::Primitive => NestedContentView::Primitive,
            NestedContent::List { offsets } => NestedContentView::List { offsets: offsets@ },
            NestedContent::FixedSizeList { width } => NestedContentView::FixedSizeList { width },
            NestedContent::Struct => NestedContentView::Struct,
        }
    }
}

impl View for Nested {
    type V = NestedView;

    open spec fn view(&self) -> NestedView {
        NestedView {
            validity: validity_view(self.validity),
            length: self.length,
            content: self.content@,
        }
    }
}

impl View for NestedState {
    type V = Seq<NestedView>;

    open spec fn view(&self) -> Seq<NestedView> {
        self.nested@.map_values(|level: Nested| level@)
    }
}

/// Whether a validity bitmap marks at least one value as null.
pub open spec fn has_null(bits: Seq<bool>) -> bool {
    exists|i: int| 0 <= i < bits.len() && !#[trigger] bits[i]
}

/// The plain present-or-absent form of a validity bitmap: a bitmap that
/// marks no value as null says no more than a missing one.
pub open spec fn collapse(validity: Option<Seq<bool>>) -> Option<Seq<bool>> {
    match validity {
        Some(bits) => if has_null(bits) {
            Some(bits)
        } else {
            None
        },
        None => None,
    }
}

/// Keeps a validity bitmap only if it marks some value as null.
pub fn freeze_validity(validity: Vec<bool>) -> (r: Option<Vec<bool>>)
    ensures
        validity_view(r) == collapse(Some(validity@)),
{
    let mut i: usize = 0;
    while i < validity.len()
        invariant
            i <= validity.len(),
            forall|j: int| 0 <= j < i ==> validity@[j],
        decreases validity.len() - i,
    {
        if !validity[i] {
            return Some(validity);
        }
        i = i + 1;
    }
    None
}

/// Collapses an optional validity bitmap.
pub fn freeze(validity: Option<Vec<bool>>) -> (r: Option<Vec<bool>>)
    ensures
        validity_view(r) == collapse(validity_view(validity)),
{
    match validity {
        Some(bits) => freeze_validity(bits),
        None => None,
    }
}

/// Whether two bitmaps hold the same flags.
pub fn same_bits(x: &Vec<bool>, y: &Vec<bool>) -> (r: bool)
    ensures
        r == (x@ == y@),
{
    if x.len() != y.len() {
        return false;
    }
    let mut i: usize = 0;
    while i < x.len()
        invariant
            i <= x.len(),
            x.len() == y.len(),
            forall|j: int| 0 <= j < i ==> x@[j] == y@[j],
        decreases x.len() - i,
    {
        if x[i] != y[i] {
            assert(x@[i as int] != y@[i as int]);
            return false;
        }
        i = i + 1;
    }
    assert(x@ =~= y@);
    true
}

/// Whether two optional bitmaps hold the same flags.
pub fn same_validity(a: &Option<Vec<bool>>, b: &Option<Vec<bool>>) -> (r: bool)
    ensures
        r == (validity_view(*a) == validity_view(*b)),
{
    match (a, b) {
        (None, None) => true,
        (Some(x), Some(y)) => same_bits(x, y),
        _ => false,
    }
}

/// Whether a level of shape is of the kind that a marker asks for.
pub open spec fn level_matches(level: NestedView, marker: InitNested) -> bool {
    match marker {
        InitNested::Primitive(_) => level.content is Primitive,
        InitNested::List(_) => level.content is List,
        InitNested::FixedSizeList(_, width) => level.content == (NestedContentView::FixedSizeList {
            width,
        }),
        InitNested::Struct(_) => level.content is Struct,
    }
}

/// Whether a shape has one level for each marker, each of the marker's kind.
pub open spec fn shape_matches(levels: Seq<NestedView>, markers: Seq<InitNested>) -> bool {
    &&& levels.len() == markers.len()
    &&& forall|i: int| 0 <= i < levels.len() ==> level_matches(#[trigger] levels[i], markers[i])
}

/// What is left of a level once it is taken apart: its length, its offsets
/// if it is a list level (none otherwise), and its validity.
pub open spec fn taken(level: NestedView) -> (usize, Seq<usize>, Option<Seq<bool>>) {
    let offsets = match level.content {
        NestedContentView::List { offsets } => offsets,
        _ => Seq::empty(),
    };
    (level.length, offsets, level.validity)
}

impl Nested {
    /// Tests whether this level is of the kind that `marker` asks for.
    pub fn matches(&self, marker: &InitNested) -> (r: bool)
        ensures
            r == level_matches(self@, *marker),
    {
        match (marker, &self.content) {
            (InitNested::Primitive(_), NestedContent::Primitive) => true,
            (InitNested::List(_), NestedContent::List { .. }) => true,
            (InitNested::FixedSizeList(_, expected), NestedContent::FixedSizeList { width }) => {
                *expected == *width
            },
            (InitNested::Struct(_), NestedContent::Struct) => true,
            _ => false,
        }
    }
}

impl NestedState {
    /// The number of levels.
    pub fn len(&self) -> (n: usize)
        ensures
            n == self@.len(),
    {
        self.nested.len()
    }

    /// The content of the innermost level.
    pub fn last(&self) -> (r: Option<&NestedContent>)
        ensures
            self@.len() == 0 ==> r is None,
            self@.len() > 0 ==> (r matches Some(content) && content@ == self@.last().content),
    {
        let n = self.nested.len();
        if n == 0 {
            None
        } else {
            Some(&self.nested[n - 1].content)
        }
    }

    /// Removes the innermost level and hands out its length, offsets and validity.
    pub fn pop(&mut self) -> (r: Option<(usize, Vec<usize>, Option<Vec<bool>>)>)
        ensures
            old(self)@.len() == 0 ==> r is None && final(self)@ == old(self)@,
            old(self)@.len() > 0 ==> {
                &&& final(self)@ == old(self)@.drop_last()
                &&& r matches Some((length, offsets, validity))
                &&& (length, offsets@, validity_view(validity)) == taken(old(self)@.last())
            },
    {
        match self.nested.pop() {
            None => None,
            Some(level) => {
                assert(self@ =~= old(self)@.drop_last());
                let Nested { validity, length, content } = level;
                let offsets = match content {
                    NestedContent::List { offsets } => offsets,
                    _ => Vec::new(),
                };
                Some((length, offsets, validity))
            },
        }
    }

    /// Tests whether this shape has one level of the right kind for each marker.
    pub fn matches(&self, markers: &Vec<InitNested>) -> (r: bool)
        ensures
            r == shape_matches(self@, markers@),
    {
        if self.nested.len() != markers.len() {
            return false;
        }
        let mut i: usize = 0;
        while i < markers.len()
            invariant
                i <= markers.len(),
                self.nested.len() == markers.len(),
                forall|j: int| 0 <= j < i ==> level_matches(#[trigger] self@[j], markers@[j]),
            decreases markers.len() - i,
        {
            if !self.nested[i].matches(&markers[i]) {
                assert(!level_matches(self@[i as int], markers@[i as int]));
                return false;
            }
            i = i + 1;
        }
        true
    }
}

} // verus!
