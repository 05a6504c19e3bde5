use vstd::prelude::*;

use crate::component::animation::Animator;
use crate::component::spatial::{Aabb, Position, Velocity};
use crate::tag::set::TagSet;

verus! {

/// Storage for one component type: slot `i` holds the component of the
/// entity currently occupying entity slot `i`, if it has one.
pub struct Column<T> {
    slots: Vec<Option<T>>,
}

impl<T> View for Column<T> {
    type V = Seq<Option<T>>;

    closed spec fn view(&self) -> Seq<Option<T>> {
        self.slots@
    }
}

impl<T> Column<T> {
    /// A column with no slots.
    pub fn new() -> (r: Self)
        ensures
            r@ == Seq::<Option<T>>::empty(),
    {
        Column { slots: Vec::new() }
    }

    /// Number of slots.
    pub fn len(&self) -> (r: usize)
        ensures
            r == self@.len(),
    {
        self.slots.len()
    }

    /// Appends an empty slot.
    pub fn push_empty(&mut self)
        ensures
            final(self)@ == old(self)@.push(None),
    {
        self.slots.push(None);
    }

    /// The component in slot `i`.
    pub fn get(&self, i: usize) -> (r: Option<&T>)
        requires
            i < self@.len(),
        ensures
            match self@[i as int] {
                Some(c) => r matches Some(x) && *x == c,
                None => r is None,
            },
    {
        match &self.slots[i] {
            Some(c) => Some(c),
            None => None,
        }
    }

    /// Mutable access to the component in slot `i`.
    pub fn get_mut(&mut self, i: usize) -> (r: Option<&mut T>)
        requires
            i < old(self)@.len(),
        ensures
            r is Some <==> old(self)@[i as int] is Some,
            r matches Some(x) ==> *x == old(self)@[i as int]->0 && final(self)@ == old(self)@.update(
                i as int,
                Some(*final(x)),
            ),
            r is None ==> final(self)@ == old(self)@,
    {
        match &mut self.slots[i] {
            Some(c) => Some(c),
            None => None,
        }
    }

    /// Puts `value` into slot `i`, returning what was there.
    pub fn replace(&mut self, i: usize, value: Option<T>) -> (r: Option<T>)
        requires
            i < old(self)@.len(),
        ensures
            r == old(self)@[i as int],
            final(self)@ == old(self)@.update(i as int, value),
    {
        let mut v = value;
        std::mem::swap(&mut v, &mut self.slots[i]);
        v
    }
}

/// Which column a component type lives in.
#[derive(PartialEq, Eq, Structural, Debug)]
pub enum ComponentKind {
    Tags,
    Position,
    Velocity,
    Aabb,
    Animator,
}

impl Clone for ComponentKind {
    fn clone(&self) -> (r: Self)
        ensures
            r == *self,
    {
        *self
    }
}

impl Copy for ComponentKind {}

/// The contents of every column.
pub struct ColumnsView<S> {
    pub tags: Seq<Option<TagSet>>,
    pub positions: Seq<Option<Position<S>>>,
    pub velocities: Seq<Option<Velocity<S>>>,
    pub aabbs: Seq<Option<Aabb<S>>>,
    pub animators: Seq<Option<Animator<S>>>,
}

impl<S> ColumnsView<S> {
    /// Whether slot `i` of the column for `kind` holds a component.
    pub open spec fn has(self, kind: ComponentKind, i: int) -> bool {
        match kind {
            ComponentKind::Tags => self.tags[i] is Some,
            ComponentKind::Position => self.positions[i] is Some,
            ComponentKind::Velocity => self.velocities[i] is Some,
            ComponentKind::Aabb => self.aabbs[i] is Some,
            ComponentKind::Animator => self.animators[i] is Some,
        }
    }

    /// The column for `kind` is the same in `self` and `other`.
    pub open spec fn same_column(self, other: Self, kind: ComponentKind) -> bool {
        match kind {
            ComponentKind::Tags => self.tags == other.tags,
            ComponentKind::Position => self.positions == other.positions,
            ComponentKind::Velocity => self.velocities == other.velocities,
            ComponentKind::Aabb => self.aabbs == other.aabbs,
            ComponentKind::Animator => self.animators == other.animators,
        }
    }

    /// Every column but the one for `kind` is the same in `self` and
    /// `other`.
    pub open spec fn same_except(self, other: Self, kind: ComponentKind) -> bool {
        forall|k: ComponentKind| k != kind ==> #[trigger] self.same_column(other, k)
    }

    /// Every column has `n` slots.
    pub open spec fn all_len(self, n: nat) -> bool {
        &&& self.tags.len() == n
        &&& self.positions.len() == n
        &&& self.velocities.len() == n
        &&& self.aabbs.len() == n
        &&& self.animators.len() == n
    }

    /// Every column with one more empty slot.
    pub open spec fn push_empty(self) -> Self {
        ColumnsView {
            tags: self.tags.push(None),
            positions: self.positions.push(None),
            velocities: self.velocities.push(None),
            aabbs: self.aabbs.push(None),
            animators: self.animators.push(None),
        }
    }

    /// Every column with slot `i` emptied.
    pub open spec fn clear(self, i: int) -> Self {
        ColumnsView {
            tags: self.tags.update(i, None),
            positions: self.positions.update(i, None),
            velocities: self.velocities.update(i, None),
            aabbs: self.aabbs.update(i, None),
            animators: self.animators.update(i, None),
        }
    }
}

/// The component columns of a world.
pub struct Columns<S> {
    tags: Column<TagSet>,
    positions: Column<Position<S>>,
    velocities: Column<Velocity<S>>,
    aabbs: Column<Aabb<S>>,
    animators: Column<Animator<S>>,
}

impl<S> View for Columns<S> {
    type V = ColumnsView<S>;

    closed spec fn view(&self) -> ColumnsView<S> {
        ColumnsView {
            tags: self.tags@,
            positions: self.positions@,
            velocities: self.velocities@,
            aabbs: self.aabbs@,
            animators: self.animators@,
        }
    }
}

impl<S> Columns<S> {
    /// Columns with no slots.
    pub fn new() -> (r: Self)
        ensures
            r@.all_len(0),
    {
        Columns {
            tags: Column::new(),
            positions: Column::new(),
            velocities: Column::new(),
            aabbs: Column::new(),
            animators: Column::new(),
        }
    }

    /// Appends an empty slot to every column.
    pub fn push_empty(&mut self)
        ensures
            final(self)@ == old(self)@.push_empty(),
    {
        self.tags.push_empty();
        self.positions.push_empty();
        self.velocities.push_empty();
        self.aabbs.push_empty();
        self.animators.push_empty();
    }

    /// Empties slot `i` of every column.
    pub fn clear(&mut self, i: usize)
        requires
            old(self)@.all_len(old(self)@.tags.len()),
            i < old(self)@.tags.len(),
        ensures
            final(self)@ == old(self)@.clear(i as int),
    {
        self.tags.replace(i, None);
        self.positions.replace(i, None);
        self.velocities.replace(i, None);
        self.aabbs.replace(i, None);
        self.animators.replace(i, None);
    }

    /// Whether slot `i` of the column for `kind` holds a component.
    pub fn has(&self, kind: ComponentKind, i: usize) -> (r: bool)
        requires
            self@.all_len(self@.tags.len()),
            i < self@.tags.len(),
        ensures
            r == self@.has(kind, i as int),
    {
        match kind {
            ComponentKind::Tags => self.tags.get(i).is_some(),
            ComponentKind::Position => self.positions.get(i).is_some(),
            ComponentKind::Velocity => self.velocities.get(i).is_some(),
            ComponentKind::Aabb => self.aabbs.get(i).is_some(),
            ComponentKind::Animator => self.animators.get(i).is_some(),
        }
    }
}

/// Writing the column of one component type leaves the column of any
/// other component type as it was.
pub proof fn lemma_other_column<S, T: Component<S>, U: Component<S>>(c: ColumnsView<S>, col: Seq<Option<T>>)
    requires
        T::spec_kind() != U::spec_kind(),
    ensures
        U::column_of(T::with_column(c, col)) == U::column_of(c),
{
    T::lemma_column(c, col);
    U::lemma_column(c, U::column_of(c));
    assert(T::with_column(c, col).same_column(c, U::spec_kind()));
}

/// A type that can be attached to an entity. Each component type has its
/// own column; the trait gives typed access to it.
pub trait Component<S>: Sized {
    /// The column this type lives in.
    spec fn spec_kind() -> ComponentKind;

    /// This type's column within the world's columns.
    spec fn column_of(c: ColumnsView<S>) -> Seq<Option<Self>>;

    /// The world's columns with this type's column replaced.
    spec fn with_column(c: ColumnsView<S>, col: Seq<Option<Self>>) -> ColumnsView<S>;

    /// Replacing the column and reading it back agree, and the kind names
    /// the same column.
    proof fn lemma_column(c: ColumnsView<S>, col: Seq<Option<Self>>)
        ensures
            Self::column_of(Self::with_column(c, col)) == col,
            forall|i: int| c.has(Self::spec_kind(), i) == (Self::column_of(c)[i] is Some),
            c.all_len(c.tags.len()) ==> Self::column_of(c).len() == c.tags.len(),
            c.all_len(c.tags.len()) && col.len() == c.tags.len() ==> Self::with_column(c, col).all_len(
                c.tags.len(),
            ),
            forall|k: ComponentKind, i: int|
                k != Self::spec_kind() ==> Self::with_column(c, col).has(k, i) == c.has(k, i),
            (forall|i: int| 0 <= i < col.len() && (col[i] is Some) ==> Self::column_of(c)[i] is Some)
                && col.len() == Self::column_of(c).len() ==> forall|k: ComponentKind, i: int|
                #![trigger Self::with_column(c, col).has(k, i)]
                0 <= i < col.len() && Self::with_column(c, col).has(k, i) ==> c.has(k, i),
            Self::with_column(c, Self::column_of(c)) == c,
            Self::with_column(c, col).same_except(c, Self::spec_kind()),
            forall|d: ColumnsView<S>| #[trigger] d.same_column(c, Self::spec_kind()) ==> Self::column_of(d)
                == Self::column_of(c),
            forall|i: int| #[trigger] Self::column_of(c.clear(i)) == Self::column_of(c).update(i, None),
            Self::column_of(c.push_empty()) == Self::column_of(c).push(None),
    ;

    /// The type's name in error reports.
    spec fn spec_name() -> Seq<char>;

    /// The type's name in error reports.
    fn name() -> (r: &'static str)
        ensures
            r@ == Self::spec_name(),
    ;

    /// The column this type lives in.
    fn kind() -> (k: ComponentKind)
        ensures
            k == Self::spec_kind(),
    ;

    /// Shared access to this type's column.
    fn column(cols: &Columns<S>) -> (r: &Column<Self>)
        ensures
            r@ == Self::column_of(cols@),
    ;

    /// Exclusive access to this type's column.
    fn column_mut(cols: &mut Columns<S>) -> (r: &mut Column<Self>)
        ensures
            r@ == Self::column_of(old(cols)@),
            final(cols)@ == Self::with_column(old(cols)@, final(r)@),
    ;
}

impl<S> Component<S> for TagSet {
    open spec fn spec_name() -> Seq<char> {
        "TagSet"@
    }

    fn name() -> (r: &'static str) {
        "TagSet"
    }

    open spec fn spec_kind() -> ComponentKind {
        ComponentKind::Tags
    }

    open spec fn column_of(c: ColumnsView<S>) -> Seq<Option<Self>> {
        c.tags
    }

    open spec fn with_column(c: ColumnsView<S>, col: Seq<Option<Self>>) -> ColumnsView<S> {
        ColumnsView { tags: col, ..c }
    }

    proof fn lemma_column(c: ColumnsView<S>, col: Seq<Option<Self>>) {
    }

    fn kind() -> (k: ComponentKind) {
        ComponentKind::Tags
    }

    fn column(cols: &Columns<S>) -> (r: &Column<Self>) {
        &cols.tags
    }

    fn column_mut(cols: &mut Columns<S>) -> (r: &mut Column<Self>) {
        &mut cols.tags
    }
}

impl<S> Component<S> for Position<S> {
    open spec fn spec_name() -> Seq<char> {
        "Position"@
    }

    fn name() -> (r: &'static str) {
        "Position"
    }

    open spec fn spec_kind() -> ComponentKind {
        ComponentKind::Position
    }

    open spec fn column_of(c: ColumnsView<S>) -> Seq<Option<Self>> {
        c.positions
    }

    open spec fn with_column(c: ColumnsView<S>, col: Seq<Option<Self>>) -> ColumnsView<S> {
        ColumnsView { positions: col, ..c }
    }

    proof fn lemma_column(c: ColumnsView<S>, col: Seq<Option<Self>>) {
    }

    fn kind() -> (k: ComponentKind) {
        ComponentKind::Position
    }

    fn column(cols: &Columns<S>) -> (r: &Column<Self>) {
        &cols.positions
    }

    fn column_mut(cols: &mut Columns<S>) -> (r: &mut Column<Self>) {
        &mut cols.positions
    }
}

impl<S> Component<S> for Velocity<S> {
    open spec fn spec_name() -> Seq<char> {
        "Velocity"@
    }

    fn name() -> (r: &'static str) {
        "Velocity"
    }

    open spec fn spec_kind() -> ComponentKind {
        ComponentKind::Velocity
    }

    open spec fn column_of(c: ColumnsView<S>) -> Seq<Option<Self>> {
        c.velocities
    }

    open spec fn with_column(c: ColumnsView<S>, col: Seq<Option<Self>>) -> ColumnsView<S> {
        ColumnsView { velocities: col, ..c }
    }

    proof fn lemma_column(c: ColumnsView<S>, col: Seq<Option<Self>>) {
    }

    fn kind() -> (k: ComponentKind) {
        ComponentKind::Velocity
    }

    fn column(cols: &Columns<S>) -> (r: &Column<Self>) {
        &cols.velocities
    }

    fn column_mut(cols: &mut Columns<S>) -> (r: &mut Column<Self>) {
        &mut cols.velocities
    }
}

impl<S> Component<S> for Aabb<S> {
    open spec fn spec_name() -> Seq<char> {
        "Aabb"@
    }

    fn name() -> (r: &'static str) {
        "Aabb"
    }

    open spec fn spec_kind() -> ComponentKind {
        ComponentKind::Aabb
    }

    open spec fn column_of(c: ColumnsView<S>) -> Seq<Option<Self>> {
        c.aabbs
    }

    open spec fn with_column(c: ColumnsView<S>, col: Seq<Option<Self>>) -> ColumnsView<S> {
        ColumnsView { aabbs: col, ..c }
    }

    proof fn lemma_column(c: ColumnsView<S>, col: Seq<Option<Self>>) {
    }

    fn kind() -> (k: ComponentKind) {
        ComponentKind::Aabb
    }

    fn column(cols: &Columns<S>) -> (r: &Column<Self>) {
        &cols.aabbs
    }

    fn column_mut(cols: &mut Columns<S>) -> (r: &mut Column<Self>) {
        &mut cols.aabbs
    }
}

impl<S> Component<S> for Animator<S> {
    open spec fn spec_name() -> Seq<char> {
        "Animator"@
    }

    fn name() -> (r: &'static str) {
        "Animator"
    }

    open spec fn spec_kind() -> ComponentKind {
        ComponentKind::Animator
    }

    open spec fn column_of(c: ColumnsView<S>) -> Seq<Option<Self>> {
        c.animators
    }

    open spec fn with_column(c: ColumnsView<S>, col: Seq<Option<Self>>) -> ColumnsView<S> {
        ColumnsView { animators: col, ..c }
    }

    proof fn lemma_column(c: ColumnsView<S>, col: Seq<Option<Self>>) {
    }

    fn kind() -> (k: ComponentKind) {
        ComponentKind::Animator
    }

    fn column(cols: &Columns<S>) -> (r: &Column<Self>) {
        &cols.animators
    }

    fn column_mut(cols: &mut Columns<S>) -> (r: &mut Column<Self>) {
        &mut cols.animators
    }
}

} // verus!
