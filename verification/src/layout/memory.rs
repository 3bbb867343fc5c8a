//! The memory layout of a type: its slots in the order in which a decoder
//! meets them.

use crate::order::texts;
use crate::typesys::{
    info_views, lemma_leaf_count_upto_grows, lemma_slots_len, lemma_slots_upto_len, Branch,
    PrimitiveClass, TypeInfo, TypeInfoView, TypeTree,
};
use amplify::confinement::{Error, LargeVec};
use vstd::prelude::*;

verus! {

/// The most slots a layout can hold.
pub const LAYOUT_MAX: usize = 4294967295;

/// Declares `amplify::confinement::Error`, with which a confined collection
/// refuses an item. Nothing is said of what it holds.
#[verifier::external_type_specification]
#[verifier::external_body]
pub struct ExConfinementError(Error);

/// The slots of a type in the order of a walk from its root. They are kept
/// in a vector confined to [`LAYOUT_MAX`] items.
#[verifier::external_body]
#[derive(Debug, PartialEq, Eq)]
pub struct MemoryLayout {
    items: LargeVec<TypeInfo>,
}

/// The slots that a layout holds, first to last.
pub uninterp spec fn layout_items(layout: MemoryLayout) -> Seq<TypeInfo>;

/// Calls `Confined::new`, which makes a confined collection that holds
/// nothing.
#[verifier::external_body]
fn confined_new() -> (layout: MemoryLayout)
    ensures
        layout_items(layout) == Seq::<TypeInfo>::empty(),
{
    MemoryLayout { items: LargeVec::new() }
}

/// Calls `Confined::push`. It refuses the item, and leaves the collection as
/// it is, when the collection already holds as many items as it may; else it
/// puts the item behind the others.
#[verifier::external_body]
fn confined_push(layout: &mut MemoryLayout, item: TypeInfo) -> (r: Result<(), Error>)
    ensures
        r is Ok == (layout_items(*old(layout)).len() < LAYOUT_MAX),
        r is Ok ==> layout_items(*final(layout)) == layout_items(*old(layout)).push(item),
        r is Err ==> layout_items(*final(layout)) == layout_items(*old(layout)),
{
    layout.items.push(item)
}

/// Calls `Confined::as_unconfined`, which lends the collection inside.
#[verifier::external_body]
fn confined_as_vec(layout: &MemoryLayout) -> (inner: &Vec<TypeInfo>)
    ensures
        inner@ == layout_items(*layout),
{
    layout.items.as_unconfined()
}

impl View for MemoryLayout {
    type V = Seq<TypeInfoView>;

    closed spec fn view(&self) -> Seq<TypeInfoView> {
        info_views(layout_items(*self))
    }
}

fn copy_path(path: &Vec<String>) -> (out: Vec<String>)
    ensures
        texts(out@) == texts(path@),
{
    let n: usize = path.len();
    let mut out: Vec<String> = Vec::new();
    let mut i: usize = 0;
    while i < n
        invariant
            n == path.len(),
            0 <= i <= n,
            out@.len() == i,
            forall|k: int| 0 <= k < i ==> (#[trigger] out@[k])@ == path@[k]@,
        decreases n - i,
    {
        out.push(path[i].clone());
        i += 1;
    }
    assert(texts(out@) =~= texts(path@));
    out
}

fn extend_path(path: &Vec<String>, label: &String) -> (out: Vec<String>)
    ensures
        texts(out@) == texts(path@).push(label@),
{
    let mut out = copy_path(path);
    let ghost before = out@;
    out.push(label.clone());
    assert(texts(out@) =~= texts(before).push(label@));
    out
}

impl TypeTree {
    fn count_branches(&self, branches: &Vec<Branch>, cap: usize) -> (r: Option<usize>)
        requires
            self is Struct || self is Enum,
            branches@ == self.branches(),
        ensures
            match r {
                Some(n) => n == self.leaf_count() && n <= cap,
                None => self.leaf_count() > cap,
            },
        decreases *self, 0nat,
    {
        let n: usize = branches.len();
        let mut total: usize = 0;
        let mut i: usize = 0;
        while i < n
            invariant
                n == branches.len(),
                branches@ == self.branches(),
                0 <= i <= n,
                total == self.leaf_count_upto(i as nat),
                total <= cap,
            decreases n - i,
        {
            proof {
                lemma_leaf_count_upto_grows(*self, (i + 1) as nat, n as nat);
            }
            match branches[i].tree.count_slots(cap - total) {
                None => {
                    return None;
                },
                Some(more) => {
                    total = total + more;
                },
            }
            i += 1;
        }
        Some(total)
    }

    /// Counts the slots of the tree, as far as `cap`: `None` says that there
    /// are more.
    pub fn count_slots(&self, cap: usize) -> (r: Option<usize>)
        ensures
            match r {
                Some(n) => n == self.leaf_count() && n <= cap,
                None => self.leaf_count() > cap,
            },
        decreases *self, 1nat,
    {
        match self {
            TypeTree::Leaf { .. } => if cap >= 1 {
                Some(1)
            } else {
                None
            },
            TypeTree::Collection { .. } => if cap >= 1 {
                Some(1)
            } else {
                None
            },
            TypeTree::Struct { fields } => self.count_branches(fields, cap),
            TypeTree::Enum { variants } => self.count_branches(variants, cap),
        }
    }
}

impl MemoryLayout {
    fn new() -> (layout: MemoryLayout)
        ensures
            layout@ == Seq::<TypeInfoView>::empty(),
    {
        let layout = confined_new();
        assert(layout@ =~= Seq::<TypeInfoView>::empty());
        layout
    }

    fn put(&mut self, item: TypeInfo)
        requires
            old(self)@.len() < LAYOUT_MAX,
        ensures
            final(self)@ == old(self)@.push(item@),
    {
        let r = confined_push(self, item);
        assert(r is Ok);
        assert(self@ =~= old(self)@.push(item@));
    }

    fn lay_out_branches(&mut self, tree: &TypeTree, branches: &Vec<Branch>, path: &Vec<String>)
        requires
            tree is Struct || tree is Enum,
            branches@ == tree.branches(),
            old(self)@.len() + tree.leaf_count() <= LAYOUT_MAX,
        ensures
            final(self)@ == old(self)@ + tree.slots(texts(path@)),
        decreases *tree, 0nat,
    {
        let ghost labels = texts(path@);
        let n: usize = branches.len();
        let mut i: usize = 0;
        assert(self@ =~= old(self)@ + tree.slots_upto(0, labels));
        while i < n
            invariant
                n == branches.len(),
                branches@ == tree.branches(),
                labels == texts(path@),
                0 <= i <= n,
                old(self)@.len() + tree.leaf_count_upto(n as nat) <= LAYOUT_MAX,
                self@ == old(self)@ + tree.slots_upto(i as nat, labels),
            decreases n - i,
        {
            proof {
                lemma_leaf_count_upto_grows(*tree, (i + 1) as nat, n as nat);
                lemma_slots_upto_len(*tree, i as nat, labels);
            }
            let inner = extend_path(path, &branches[i].label);
            self.lay_out(&branches[i].tree, &inner);
            proof {
                assert(self@ =~= old(self)@ + tree.slots_upto((i + 1) as nat, labels));
            }
            i += 1;
        }
    }

    fn lay_out(&mut self, tree: &TypeTree, path: &Vec<String>)
        requires
            old(self)@.len() + tree.leaf_count() <= LAYOUT_MAX,
        ensures
            final(self)@ == old(self)@ + tree.slots(texts(path@)),
        decreases *tree, 1nat,
    {
        match tree {
            TypeTree::Leaf { class, size } => {
                let item = TypeInfo { path: copy_path(path), class: *class, size: *size };
                self.put(item);
                assert(self@ =~= old(self)@ + tree.slots(texts(path@)));
            },
            TypeTree::Collection { element: _, size } => {
                let item = TypeInfo {
                    path: copy_path(path),
                    class: PrimitiveClass::Collection,
                    size: *size,
                };
                self.put(item);
                assert(self@ =~= old(self)@ + tree.slots(texts(path@)));
            },
            TypeTree::Struct { fields } => {
                self.lay_out_branches(tree, fields, path);
            },
            TypeTree::Enum { variants } => {
                self.lay_out_branches(tree, variants, path);
            },
        }
    }

    /// Lays out a type: walks its tree from the root, visits the parts of
    /// every structure and enumeration in their declared order, and records a
    /// slot for every leaf and every collection met. The tree must not hold
    /// more slots than a layout can.
    pub fn from(tree: &TypeTree) -> (layout: MemoryLayout)
        requires
            tree.leaf_count() <= LAYOUT_MAX,
        ensures
            layout@ == tree.slots(Seq::empty()),
            layout@.len() == tree.leaf_count(),
    {
        let mut layout = MemoryLayout::new();
        let root: Vec<String> = Vec::new();
        assert(texts(root@) =~= Seq::empty());
        layout.lay_out(tree, &root);
        proof {
            lemma_slots_len(*tree, Seq::empty());
            assert(layout@ =~= tree.slots(Seq::empty()));
        }
        layout
    }

    /// Lays out a type if it holds no more slots than a layout can.
    pub fn try_from_tree(tree: &TypeTree) -> (out: Option<MemoryLayout>)
        ensures
            out is Some == (tree.leaf_count() <= LAYOUT_MAX),
            out matches Some(layout) ==> layout@ == tree.slots(Seq::empty()),
    {
        match tree.count_slots(LAYOUT_MAX) {
            Some(_) => Some(MemoryLayout::from(tree)),
            None => None,
        }
    }

    /// The slots of the layout, first to last.
    pub fn items(&self) -> (items: &Vec<TypeInfo>)
        ensures
            info_views(items@) == self@,
    {
        confined_as_vec(self)
    }

    /// The number of slots.
    pub fn len(&self) -> (n: usize)
        ensures
            n == self@.len(),
    {
        confined_as_vec(self).len()
    }
}

} // verus!
