//! The structural shape of a type, as a tree, and the slots it flattens to.

use crate::order::texts;
use vstd::prelude::*;

verus! {

/// The kinds of slot a layout knows.
#[derive(Clone, Copy, Debug, PartialEq, Eq, Hash, Structural)]
pub enum PrimitiveClass {
    Unit,
    Boolean,
    Unsigned,
    Signed,
    Character,
    Bytes,
    /// A run of elements, recorded as one slot whatever its elements are.
    Collection,
}

/// How much room a slot takes, at least and at most. For a collection the
/// numbers count elements, for any other slot bytes.
#[derive(Clone, Copy, Debug, PartialEq, Eq, Hash, Structural)]
pub struct SizeHint {
    pub min: u64,
    pub max: u64,
}

/// One slot of a layout: the labels that lead to it from the root, what it
/// holds and how large it is.
#[derive(Clone, Debug, PartialEq, Eq)]
pub struct TypeInfo {
    pub path: Vec<String>,
    pub class: PrimitiveClass,
    pub size: SizeHint,
}

/// The model of a [`TypeInfo`].
pub struct TypeInfoView {
    pub path: Seq<Seq<char>>,
    pub class: PrimitiveClass,
    pub size: SizeHint,
}

impl View for TypeInfo {
    type V = TypeInfoView;

    open spec fn view(&self) -> TypeInfoView {
        TypeInfoView { path: texts(self.path@), class: self.class, size: self.size }
    }
}

/// The models of a list of slots.
pub open spec fn info_views(items: Seq<TypeInfo>) -> Seq<TypeInfoView> {
    Seq::new(items.len(), |i: int| items[i]@)
}

/// A labelled part of a composite type: a field of a structure or a variant
/// of an enumeration.
#[derive(Debug, PartialEq, Eq)]
pub struct Branch {
    pub label: String,
    pub tree: TypeTree,
}

/// The shape of a type. A collection holds the shape of its elements, but
/// counts as a single slot: that shape is recorded, not repeated.
#[derive(Debug, PartialEq, Eq)]
pub enum TypeTree {
    Leaf { class: PrimitiveClass, size: SizeHint },
    Struct { fields: Vec<Branch> },
    Enum { variants: Vec<Branch> },
    Collection { element: Box<TypeTree>, size: SizeHint },
}

impl TypeTree {
    /// The parts of a composite type, in the order of their declaration.
    pub open spec fn branches(self) -> Seq<Branch> {
        match self {
            TypeTree::Struct { fields } => fields@,
            TypeTree::Enum { variants } => variants@,
            _ => Seq::empty(),
        }
    }

    /// The number of slots of the tree: one for each leaf and each collection.
    pub open spec fn leaf_count(self) -> nat
        decreases self, self.branches().len() + 1,
    {
        match self {
            TypeTree::Leaf { .. } => 1,
            TypeTree::Collection { .. } => 1,
            _ => self.leaf_count_upto(self.branches().len()),
        }
    }

    /// The number of slots of the first `n` branches.
    pub open spec fn leaf_count_upto(self, n: nat) -> nat
        decreases self, n,
    {
        if n == 0 || n > self.branches().len() {
            0
        } else {
            self.leaf_count_upto((n - 1) as nat) + self.branches()[n - 1].tree.leaf_count()
        }
    }

    /// The slots of the tree, found by walking it from the root and visiting
    /// the branches of each composite in their declared order. `path` holds
    /// the labels that lead to the tree. A collection gives one slot, with its
    /// own bounds and the path that leads to it: the shape of its elements
    /// stays in the tree and gives no slots of its own, so that a collection
    /// is never unrolled.
    pub open spec fn slots(self, path: Seq<Seq<char>>) -> Seq<TypeInfoView>
        decreases self, self.branches().len() + 1,
    {
        match self {
            TypeTree::Leaf { class, size } => seq![TypeInfoView { path, class, size }],
            TypeTree::Collection { element, size } => seq![
                TypeInfoView { path, class: PrimitiveClass::Collection, size },
            ],
            _ => self.slots_upto(self.branches().len(), path),
        }
    }

    /// The slots of the first `n` branches.
    pub open spec fn slots_upto(self, n: nat, path: Seq<Seq<char>>) -> Seq<TypeInfoView>
        decreases self, n,
    {
        if n == 0 || n > self.branches().len() {
            Seq::empty()
        } else {
            self.slots_upto((n - 1) as nat, path) + self.branches()[n - 1].tree.slots(
                path.push(self.branches()[n - 1].label@),
            )
        }
    }
}

/// The first branches hold no more slots than all of them.
pub proof fn lemma_leaf_count_upto_grows(tree: TypeTree, i: nat, j: nat)
    requires
        i <= j <= tree.branches().len(),
    ensures
        tree.leaf_count_upto(i) <= tree.leaf_count_upto(j),
    decreases j,
{
    if i < j {
        lemma_leaf_count_upto_grows(tree, i, (j - 1) as nat);
    }
}

/// A walk yields one slot for each leaf and each collection of the tree.
pub proof fn lemma_slots_len(tree: TypeTree, path: Seq<Seq<char>>)
    ensures
        tree.slots(path).len() == tree.leaf_count(),
    decreases tree, tree.branches().len() + 1,
{
    match tree {
        TypeTree::Leaf { .. } => {},
        TypeTree::Collection { .. } => {},
        _ => {
            lemma_slots_upto_len(tree, tree.branches().len(), path);
        },
    }
}

/// A walk over the first `n` branches yields one slot for each of their
/// leaves and collections.
pub proof fn lemma_slots_upto_len(tree: TypeTree, n: nat, path: Seq<Seq<char>>)
    ensures
        tree.slots_upto(n, path).len() == tree.leaf_count_upto(n),
    decreases tree, n,
{
    if n == 0 || n > tree.branches().len() {
    } else {
        lemma_slots_upto_len(tree, (n - 1) as nat, path);
        lemma_slots_len(
            tree.branches()[n - 1].tree,
            path.push(tree.branches()[n - 1].label@),
        );
    }
}

/// The slots of the first `i` branches are the first slots of any longer run
/// of branches.
pub proof fn lemma_slots_upto_prefix(tree: TypeTree, i: nat, j: nat, path: Seq<Seq<char>>)
    requires
        i <= j <= tree.branches().len(),
    ensures
        tree.leaf_count_upto(i) <= tree.leaf_count_upto(j),
        tree.slots_upto(j, path).len() == tree.leaf_count_upto(j),
        tree.slots_upto(j, path).subrange(0, tree.leaf_count_upto(i) as int) == tree.slots_upto(
            i,
            path,
        ),
    decreases j,
{
    lemma_slots_upto_len(tree, j, path);
    lemma_slots_upto_len(tree, i, path);
    if i < j {
        lemma_slots_upto_prefix(tree, i, (j - 1) as nat, path);
        lemma_slots_upto_len(tree, (j - 1) as nat, path);
        assert(tree.slots_upto(j, path).subrange(0, tree.leaf_count_upto(i) as int)
            =~= tree.slots_upto((j - 1) as nat, path).subrange(
            0,
            tree.leaf_count_upto(i) as int,
        ));
    } else {
        assert(tree.slots_upto(j, path).subrange(0, tree.leaf_count_upto(i) as int)
            =~= tree.slots_upto(i, path));
    }
}

/// A layout keeps the declared order of the parts of a structure or an
/// enumeration: the slots of its part `i` stand together, under the label of
/// that part, behind the slots of all parts declared before it and before
/// those of all parts declared after it.
pub proof fn lemma_layout_keeps_declared_order(tree: TypeTree, path: Seq<Seq<char>>, i: nat)
    requires
        tree is Struct || tree is Enum,
        i < tree.branches().len(),
    ensures
        tree.leaf_count_upto(i) <= tree.leaf_count_upto(i + 1) <= tree.leaf_count(),
        tree.slots(path).len() == tree.leaf_count(),
        tree.slots(path).subrange(
            tree.leaf_count_upto(i) as int,
            tree.leaf_count_upto(i + 1) as int,
        ) == tree.branches()[i as int].tree.slots(path.push(tree.branches()[i as int].label@)),
{
    let n = tree.branches().len();
    let part = tree.branches()[i as int].tree.slots(path.push(tree.branches()[i as int].label@));
    lemma_slots_len(tree, path);
    lemma_slots_upto_prefix(tree, i + 1, n, path);
    lemma_slots_upto_len(tree, i, path);
    lemma_slots_upto_len(tree, i + 1, path);
    assert(tree.slots_upto(i + 1, path) == tree.slots_upto(i, path) + part);
    assert(tree.slots(path).subrange(
        tree.leaf_count_upto(i) as int,
        tree.leaf_count_upto(i + 1) as int,
    ) =~= tree.slots_upto(i + 1, path).subrange(
        tree.leaf_count_upto(i) as int,
        tree.leaf_count_upto(i + 1) as int,
    ));
    assert(tree.slots_upto(i + 1, path).subrange(
        tree.leaf_count_upto(i) as int,
        tree.leaf_count_upto(i + 1) as int,
    ) =~= part);
}

} // verus!
