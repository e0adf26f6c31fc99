//! Copying a directory with everything in it.

use crate::path;
use crate::path::UnixPath;
use vstd::prelude::*;

verus! {

/// Something to do to copy a tree.
#[derive(Debug)]
pub enum CopyStep {
    /// Make the directory `to` and tell what is in `from`.
    Directory { from: UnixPath, to: UnixPath },
    /// Copy a file.
    File { from: UnixPath, to: UnixPath },
}

/// What a step says, with paths by their bytes.
pub struct StepView {
    pub directory: bool,
    pub from: Seq<u8>,
    pub to: Seq<u8>,
}

impl View for CopyStep {
    type V = StepView;

    open spec fn view(&self) -> StepView {
        match *self {
            CopyStep::Directory { from, to } => StepView { directory: true, from: from@, to: to@ },
            CopyStep::File { from, to } => StepView { directory: false, from: from@, to: to@ },
        }
    }
}

/// Something found in a directory.
#[derive(Debug)]
pub struct FoundItem {
    pub name: Vec<u8>,
    pub directory: bool,
}

/// The step for something found in the directory `from`, which is copied to
/// `to`.
pub open spec fn item_step(from: Seq<u8>, to: Seq<u8>, item: FoundItem) -> StepView {
    StepView {
        directory: item.directory,
        from: path::joined(from, item.name@),
        to: path::joined(to, item.name@),
    }
}

/// The steps for what was found in a directory.
pub open spec fn item_steps(from: Seq<u8>, to: Seq<u8>, items: Seq<FoundItem>) -> Seq<StepView> {
    Seq::new(items.len(), |i: int| item_step(from, to, items[i]))
}

/// What a stack of steps says from its top down.
pub open spec fn top_down(left: Seq<CopyStep>) -> Seq<StepView> {
    Seq::new(left.len(), |i: int| left[left.len() - 1 - i]@)
}

/// A copy under way.
pub struct CopyRun {
    left: Vec<CopyStep>,
}

impl View for CopyRun {
    type V = Seq<StepView>;

    closed spec fn view(&self) -> Seq<StepView> {
        top_down(self.left@)
    }
}

impl CopyRun {
    /// Begins to copy the directory `from` to `to`.
    pub fn new(from: &UnixPath, to: &UnixPath) -> (r: Self)
        ensures
            r@ == seq![StepView { directory: true, from: from@, to: to@ }],
    {
        let mut left: Vec<CopyStep> = Vec::new();
        left.push(CopyStep::Directory { from: from.clone(), to: to.clone() });
        let r = CopyRun { left };
        assert(r@ =~= seq![StepView { directory: true, from: from@, to: to@ }]);
        r
    }

    /// The next step, if any is left.
    pub fn next(&mut self) -> (r: Option<CopyStep>)
        ensures
            match r {
                Some(step) => old(self)@.len() > 0 && step@ == old(self)@[0] && final(self)@ == old(
                    self,
                )@.skip(1),
                None => old(self)@.len() == 0 && final(self)@ == old(self)@,
            },
    {
        let r = self.left.pop();
        proof {
            if old(self).left@.len() > 0 {
                assert(self@ =~= old(self)@.skip(1));
            }
        }
        r
    }

    /// Takes what is in the directory `from`, which is copied to `to`: it is
    /// copied next, in the order in which it was found.
    pub fn found(&mut self, from: &UnixPath, to: &UnixPath, items: &Vec<FoundItem>)
        ensures
            final(self)@ == item_steps(from@, to@, items@) + old(self)@,
    {
        let ghost before = self@;
        let mut i: usize = items.len();
        assert(item_steps(from@, to@, items@).skip(i as int) + before =~= before);
        while i > 0
            invariant
                i <= items@.len(),
                self@ == item_steps(from@, to@, items@).skip(i as int) + before,
            decreases i,
        {
            i -= 1;
            let item = &items[i];
            let f = from.join(item.name.as_slice());
            let t = to.join(item.name.as_slice());
            let ghost held = self.left@;
            if item.directory {
                self.left.push(CopyStep::Directory { from: f, to: t });
            } else {
                self.left.push(CopyStep::File { from: f, to: t });
            }
            proof {
                let step = item_step(from@, to@, items@[i as int]);
                assert(self.left@.last()@ == step);
                assert(self@ =~= seq![step] + top_down(held));
                assert(self@ =~= item_steps(from@, to@, items@).skip(i as int) + before);
            }
        }
        assert(item_steps(from@, to@, items@).skip(0) =~= item_steps(from@, to@, items@));
    }
}

/// What there is to copy: a file, or a directory with what its names lead to.
pub enum Tree {
    File,
    Directory(Seq<(Seq<u8>, Tree)>),
}

/// How many files and directories there are in a tree.
pub open spec fn size(t: Tree) -> nat
    decreases t,
{
    match t {
        Tree::File => 1,
        Tree::Directory(items) => 1 + size_all(items),
    }
}

pub open spec fn size_all(items: Seq<(Seq<u8>, Tree)>) -> nat
    decreases items,
{
    if items.len() == 0 {
        0
    } else {
        size(items[0].1) + size_all(items.subrange(1, items.len() as int))
    }
}

/// The steps that copy a tree: a directory is made before anything in it is
/// copied, and everything in it is copied to the same name.
pub open spec fn tree_steps(from: Seq<u8>, to: Seq<u8>, t: Tree) -> Seq<StepView>
    decreases t,
{
    match t {
        Tree::File => seq![StepView { directory: false, from, to }],
        Tree::Directory(items) => seq![StepView { directory: true, from, to }] + all_steps(
            from,
            to,
            items,
        ),
    }
}

pub open spec fn all_steps(from: Seq<u8>, to: Seq<u8>, items: Seq<(Seq<u8>, Tree)>) -> Seq<
    StepView,
>
    decreases items,
{
    if items.len() == 0 {
        Seq::empty()
    } else {
        tree_steps(
            path::joined(from, items[0].0),
            path::joined(to, items[0].0),
            items[0].1,
        ) + all_steps(from, to, items.subrange(1, items.len() as int))
    }
}

/// A tree that is still to be copied.
pub struct Pending {
    pub from: Seq<u8>,
    pub to: Seq<u8>,
    pub tree: Tree,
}

/// The step that a pending tree begins with.
pub open spec fn first_step(p: Pending) -> StepView {
    StepView { directory: p.tree is Directory, from: p.from, to: p.to }
}

/// What is pending in a directory that was made.
pub open spec fn inside(from: Seq<u8>, to: Seq<u8>, items: Seq<(Seq<u8>, Tree)>) -> Seq<Pending> {
    Seq::new(
        items.len(),
        |i: int|
            Pending {
                from: path::joined(from, items[i].0),
                to: path::joined(to, items[i].0),
                tree: items[i].1,
            },
    )
}

/// What is pending once the first step of `p` was carried out.
pub open spec fn stepped(p: Seq<Pending>) -> Seq<Pending> {
    match p[0].tree {
        Tree::File => p.skip(1),
        Tree::Directory(items) => inside(p[0].from, p[0].to, items) + p.skip(1),
    }
}

pub open spec fn total(p: Seq<Pending>) -> nat
    decreases p.len(),
{
    if p.len() == 0 {
        0
    } else {
        size(p[0].tree) + total(p.skip(1))
    }
}

/// The steps that are carried out one after the other, from what is pending
/// until nothing is.
pub open spec fn carried_out(p: Seq<Pending>) -> Seq<StepView>
    decreases total(p),
{
    if p.len() == 0 {
        Seq::empty()
    } else {
        proof {
            lemma_step_makes_progress(p);
        }
        seq![first_step(p[0])] + carried_out(stepped(p))
    }
}

/// The steps of one pending tree after the other.
pub open spec fn pending_steps(p: Seq<Pending>) -> Seq<StepView>
    decreases p.len(),
{
    if p.len() == 0 {
        Seq::empty()
    } else {
        tree_steps(p[0].from, p[0].to, p[0].tree) + pending_steps(p.skip(1))
    }
}

proof fn lemma_total_of_both(a: Seq<Pending>, b: Seq<Pending>)
    ensures
        total(a + b) == total(a) + total(b),
    decreases a.len(),
{
    if a.len() == 0 {
        assert(a + b =~= b);
    } else {
        lemma_total_of_both(a.skip(1), b);
        assert((a + b).skip(1) =~= a.skip(1) + b);
    }
}

proof fn lemma_total_inside(from: Seq<u8>, to: Seq<u8>, items: Seq<(Seq<u8>, Tree)>)
    ensures
        total(inside(from, to, items)) == size_all(items),
    decreases items.len(),
{
    if items.len() > 0 {
        let rest = items.subrange(1, items.len() as int);
        lemma_total_inside(from, to, rest);
        assert(inside(from, to, items).skip(1) =~= inside(from, to, rest));
    }
}

/// Every step leaves less to copy.
pub proof fn lemma_step_makes_progress(p: Seq<Pending>)
    requires
        p.len() > 0,
    ensures
        total(stepped(p)) < total(p),
{
    if let Tree::Directory(items) = p[0].tree {
        lemma_total_inside(p[0].from, p[0].to, items);
        lemma_total_of_both(inside(p[0].from, p[0].to, items), p.skip(1));
    }
}

proof fn lemma_steps_of_both(a: Seq<Pending>, b: Seq<Pending>)
    ensures
        pending_steps(a + b) == pending_steps(a) + pending_steps(b),
    decreases a.len(),
{
    if a.len() == 0 {
        assert(a + b =~= b);
        assert(pending_steps(a) + pending_steps(b) =~= pending_steps(b));
    } else {
        lemma_steps_of_both(a.skip(1), b);
        assert((a + b).skip(1) =~= a.skip(1) + b);
        let first = tree_steps(a[0].from, a[0].to, a[0].tree);
        assert(first + (pending_steps(a.skip(1)) + pending_steps(b)) =~= first + pending_steps(
            a.skip(1),
        ) + pending_steps(b));
    }
}

proof fn lemma_steps_inside(from: Seq<u8>, to: Seq<u8>, items: Seq<(Seq<u8>, Tree)>)
    ensures
        pending_steps(inside(from, to, items)) == all_steps(from, to, items),
    decreases items.len(),
{
    if items.len() > 0 {
        let rest = items.subrange(1, items.len() as int);
        lemma_steps_inside(from, to, rest);
        assert(inside(from, to, items).skip(1) =~= inside(from, to, rest));
    }
}

/// Carrying out one step after the other copies each pending tree as a whole,
/// in turn.
proof fn lemma_steps_copy_the_trees(p: Seq<Pending>)
    ensures
        carried_out(p) == pending_steps(p),
    decreases total(p),
{
    if p.len() > 0 {
        lemma_step_makes_progress(p);
        lemma_steps_copy_the_trees(stepped(p));
        let rest = pending_steps(p.skip(1));
        match p[0].tree {
            Tree::File => {},
            Tree::Directory(items) => {
                let there = inside(p[0].from, p[0].to, items);
                lemma_steps_of_both(there, p.skip(1));
                lemma_steps_inside(p[0].from, p[0].to, items);
                let within = all_steps(p[0].from, p[0].to, items);
                assert(seq![first_step(p[0])] + (within + rest) =~= seq![first_step(p[0])] + within
                    + rest);
            },
        }
    }
}

/// The steps that remain are those that what is pending begins with: `next`
/// takes the first, and `found` puts what is in a directory in its place.
pub proof fn law_copy_takes_one_step_at_a_time(
    p: Seq<Pending>,
    items: Seq<(Seq<u8>, Tree)>,
    found: Seq<FoundItem>,
)
    requires
        p.len() > 0,
        p[0].tree == Tree::Directory(items),
        found.len() == items.len(),
        forall|i: int|
            0 <= i < items.len() ==> (#[trigger] found[i]).name@ == items[i].0
                && found[i].directory == (items[i].1 is Directory),
    ensures
        stepped(p).map_values(|q: Pending| first_step(q)) == item_steps(p[0].from, p[0].to, found)
            + p.map_values(|q: Pending| first_step(q)).skip(1),
{
    assert forall|i: int| 0 <= i < items.len() implies first_step(
        inside(p[0].from, p[0].to, items)[i],
    ) == #[trigger] item_steps(p[0].from, p[0].to, found)[i] by {
        assert(found[i].name@ == items[i].0);
    }
    assert(stepped(p).map_values(|q: Pending| first_step(q)) =~= item_steps(
        p[0].from,
        p[0].to,
        found,
    ) + p.map_values(|q: Pending| first_step(q)).skip(1));
}

/// A copy that begins with one tree and goes on step by step until nothing is
/// left copies that tree: each directory is made before what is in it is
/// copied, and each file and directory once, to the same place below the
/// destination.
pub proof fn law_copy_covers_the_tree(from: Seq<u8>, to: Seq<u8>, tree: Tree)
    ensures
        carried_out(seq![Pending { from, to, tree }]) == tree_steps(from, to, tree),
{
    let p = seq![Pending { from, to, tree }];
    lemma_steps_copy_the_trees(p);
    assert(p.skip(1) =~= Seq::<Pending>::empty());
    assert(pending_steps(p.skip(1)) =~= Seq::<StepView>::empty());
    assert(tree_steps(from, to, tree) + Seq::<StepView>::empty() =~= tree_steps(from, to, tree));
}

/// Everything that was found in a directory is copied, whatever it is called, in the
/// order in which it was found: as what it is, from its name in the one directory to
/// the same name in the other.
pub proof fn law_everything_found_is_copied(
    from: Seq<u8>,
    to: Seq<u8>,
    items: Seq<FoundItem>,
    i: int,
)
    ensures
        item_steps(from, to, items).len() == items.len(),
        0 <= i < items.len() ==> {
            let step = item_steps(from, to, items)[i];
            &&& step.directory == items[i].directory
            &&& step.from == path::joined(from, items[i].name@)
            &&& step.to == path::joined(to, items[i].name@)
        },
{
}

/// A step says what it does, with its paths by their bytes.
pub proof fn law_step_says_what_it_does(from: UnixPath, to: UnixPath)
    ensures
        (CopyStep::Directory { from, to })@ == (StepView {
            directory: true,
            from: from@,
            to: to@,
        }),
        (CopyStep::File { from, to })@ == (StepView { directory: false, from: from@, to: to@ }),
{
}

/// To copy a file is one step. To copy a directory is to make it and then to copy,
/// one after the other, each of the trees in it to its name, so that a directory
/// with one more tree behind the others takes the steps of that tree behind the
/// others.
pub proof fn law_tree_is_copied_as_a_whole(
    from: Seq<u8>,
    to: Seq<u8>,
    items: Seq<(Seq<u8>, Tree)>,
    name: Seq<u8>,
    tree: Tree,
)
    ensures
        tree_steps(from, to, Tree::File) == seq![StepView { directory: false, from, to }],
        tree_steps(from, to, Tree::Directory(Seq::empty())) == seq![
            StepView { directory: true, from, to },
        ],
        tree_steps(from, to, Tree::Directory(items.push((name, tree)))) == tree_steps(
            from,
            to,
            Tree::Directory(items),
        ) + tree_steps(path::joined(from, name), path::joined(to, name), tree),
{
    lemma_steps_with_one_more(from, to, items, name, tree);
    let none: Seq<(Seq<u8>, Tree)> = Seq::empty();
    assert(all_steps(from, to, none) =~= Seq::<StepView>::empty());
    assert(tree_steps(from, to, Tree::Directory(none)) =~= seq![
        StepView { directory: true, from, to },
    ]);
    assert(tree_steps(from, to, Tree::Directory(items.push((name, tree)))) =~= tree_steps(
        from,
        to,
        Tree::Directory(items),
    ) + tree_steps(path::joined(from, name), path::joined(to, name), tree));
}

proof fn lemma_steps_with_one_more(
    from: Seq<u8>,
    to: Seq<u8>,
    items: Seq<(Seq<u8>, Tree)>,
    name: Seq<u8>,
    tree: Tree,
)
    ensures
        all_steps(from, to, items.push((name, tree))) == all_steps(from, to, items) + tree_steps(
            path::joined(from, name),
            path::joined(to, name),
            tree,
        ),
    decreases items.len(),
{
    let more = items.push((name, tree));
    let none: Seq<(Seq<u8>, Tree)> = Seq::empty();
    let last = tree_steps(path::joined(from, name), path::joined(to, name), tree);
    if items.len() == 0 {
        assert(more.subrange(1, more.len() as int) =~= none);
        assert(all_steps(from, to, none) =~= Seq::<StepView>::empty());
        assert(all_steps(from, to, more) =~= last);
        assert(all_steps(from, to, items) + last =~= last);
    } else {
        let rest = items.subrange(1, items.len() as int);
        lemma_steps_with_one_more(from, to, rest, name, tree);
        assert(more.subrange(1, more.len() as int) =~= rest.push((name, tree)));
        let first = tree_steps(
            path::joined(from, items[0].0),
            path::joined(to, items[0].0),
            items[0].1,
        );
        assert(more[0] == items[0]);
        assert(first + (all_steps(from, to, rest) + last) =~= first + all_steps(from, to, rest)
            + last);
    }
}

/// A copy takes as many steps as there are files and directories to copy.
pub proof fn law_copy_takes_a_step_for_each_item(from: Seq<u8>, to: Seq<u8>, tree: Tree)
    ensures
        tree_steps(from, to, tree).len() == size(tree),
    decreases tree,
{
    if let Tree::Directory(items) = tree {
        lemma_steps_of_items(from, to, items);
    }
}

proof fn lemma_steps_of_items(from: Seq<u8>, to: Seq<u8>, items: Seq<(Seq<u8>, Tree)>)
    ensures
        all_steps(from, to, items).len() == size_all(items),
    decreases items,
{
    if items.len() > 0 {
        law_copy_takes_a_step_for_each_item(
            path::joined(from, items[0].0),
            path::joined(to, items[0].0),
            items[0].1,
        );
        lemma_steps_of_items(from, to, items.subrange(1, items.len() as int));
    }
}

/// What is pending after a step: where it was a file, what was pending behind it;
/// where it was a directory, everything in it, in its order and in front of that.
pub proof fn law_step_leaves_what_is_inside(p: Seq<Pending>, i: int)
    requires
        p.len() > 0,
    ensures
        first_step(p[0]).from == p[0].from,
        first_step(p[0]).to == p[0].to,
        first_step(p[0]).directory <==> p[0].tree is Directory,
        p[0].tree is File ==> stepped(p) == p.skip(1),
        p[0].tree is Directory ==> {
            let items = p[0].tree->Directory_0;
            &&& stepped(p).len() == items.len() + p.len() - 1
            &&& stepped(p).skip(items.len() as int) == p.skip(1)
            &&& 0 <= i < items.len() ==> {
                &&& stepped(p)[i].from == path::joined(p[0].from, items[i].0)
                &&& stepped(p)[i].to == path::joined(p[0].to, items[i].0)
                &&& stepped(p)[i].tree == items[i].1
            }
        },
{
    if let Tree::Directory(items) = p[0].tree {
        assert(stepped(p).skip(items.len() as int) =~= p.skip(1));
    }
}

} // verus!
