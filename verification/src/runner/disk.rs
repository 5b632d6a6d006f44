//! A model of the disk, to say what laying out a tree achieves: carried out
//! on any disk, the steps of a tree leave a disk that shows the tree, file
//! for file and byte for byte, and they touch nothing outside the sandbox.
//!
//! The model takes a path as a list of names and a disk as a map from paths
//! to what is there. It knows no links, no permissions and no names with a
//! meaning of their own, such as `..`.

use vstd::prelude::*;
use crate::model::DirectoryView;
use crate::runner::sandbox::{file_steps, realise_steps, subdirectory_steps, FsStepView};

verus! {

/// What is at a path.
pub enum Node {
    Directory,
    File(Seq<u8>),
}

/// The path a step works on.
pub open spec fn path_of(step: FsStepView) -> Seq<Seq<char>> {
    match step {
        FsStepView::CreateDir(path) => path,
        FsStepView::WriteFile(path, _) => path,
    }
}

/// What a step leaves at its path.
pub open spec fn node_of(step: FsStepView) -> Node {
    match step {
        FsStepView::CreateDir(_) => Node::Directory,
        FsStepView::WriteFile(_, bytes) => Node::File(bytes),
    }
}

/// The disk after one step.
pub open spec fn apply(disk: Map<Seq<Seq<char>>, Node>, step: FsStepView) -> Map<
    Seq<Seq<char>>,
    Node,
> {
    disk.insert(path_of(step), node_of(step))
}

/// The disk after the steps, carried out in order.
pub open spec fn apply_all(disk: Map<Seq<Seq<char>>, Node>, steps: Seq<FsStepView>) -> Map<
    Seq<Seq<char>>,
    Node,
>
    decreases steps.len(),
{
    if steps.len() == 0 {
        disk
    } else {
        apply_all(apply(disk, steps[0]), steps.skip(1))
    }
}

/// Whether `path` is `prefix` or lies below it.
pub open spec fn under(path: Seq<Seq<char>>, prefix: Seq<Seq<char>>) -> bool {
    prefix.len() <= path.len() && path.subrange(0, prefix.len() as int) == prefix
}

/// Whether the disk has the node at the path.
pub open spec fn has(disk: Map<Seq<Seq<char>>, Node>, path: Seq<Seq<char>>, node: Node) -> bool {
    disk.dom().contains(path) && disk[path] == node
}

/// Whether two disks have the same at the path.
pub open spec fn same_at(
    a: Map<Seq<Seq<char>>, Node>,
    b: Map<Seq<Seq<char>>, Node>,
    path: Seq<Seq<char>>,
) -> bool {
    a.dom().contains(path) == b.dom().contains(path) && (a.dom().contains(path) ==> a[path]
        == b[path])
}

/// Whether the disk shows the tree below `root`: the directory is there, each
/// of its files is there with its bytes, and each subdirectory shows below it.
pub open spec fn shows(
    disk: Map<Seq<Seq<char>>, Node>,
    directory: DirectoryView,
    root: Seq<Seq<char>>,
) -> bool
    decreases directory,
{
    let path = root.push(directory.name);
    &&& has(disk, path, Node::Directory)
    &&& forall|i: int|
        0 <= i < directory.files.len() ==> has(
            disk,
            path.push((#[trigger] directory.files[i]).name),
            Node::File(directory.files[i].bytes),
        )
    &&& forall|i: int|
        0 <= i < directory.subdirectories.len() ==> shows(
            disk,
            #[trigger] directory.subdirectories[i],
            path,
        )
}

/// A tree in which no two entries of a directory share a name.
pub open spec fn names_distinct(directory: DirectoryView) -> bool
    decreases directory,
{
    &&& forall|i: int, j: int|
        0 <= i < j < directory.files.len() ==> (#[trigger] directory.files[i]).name != (
        #[trigger] directory.files[j]).name
    &&& forall|i: int, j: int|
        0 <= i < j < directory.subdirectories.len() ==> (
        #[trigger] directory.subdirectories[i]).name != (
        #[trigger] directory.subdirectories[j]).name
    &&& forall|i: int, j: int|
        0 <= i < directory.files.len() && 0 <= j < directory.subdirectories.len() ==> (
        #[trigger] directory.files[i]).name != (#[trigger] directory.subdirectories[j]).name
    &&& forall|i: int|
        0 <= i < directory.subdirectories.len() ==> names_distinct(
            #[trigger] directory.subdirectories[i],
        )
}

proof fn lemma_apply_all_concat(
    disk: Map<Seq<Seq<char>>, Node>,
    a: Seq<FsStepView>,
    b: Seq<FsStepView>,
)
    ensures
        apply_all(disk, a + b) == apply_all(apply_all(disk, a), b),
    decreases a.len(),
{
    if a.len() == 0 {
        assert(a + b =~= b);
    } else {
        assert((a + b)[0] == a[0]);
        assert((a + b).skip(1) =~= a.skip(1) + b);
        lemma_apply_all_concat(apply(disk, a[0]), a.skip(1), b);
    }
}

/// Steps leave alone every path that none of them works on.
proof fn lemma_untouched(
    disk: Map<Seq<Seq<char>>, Node>,
    steps: Seq<FsStepView>,
    path: Seq<Seq<char>>,
)
    requires
        forall|i: int| 0 <= i < steps.len() ==> path_of(#[trigger] steps[i]) != path,
    ensures
        same_at(apply_all(disk, steps), disk, path),
    decreases steps.len(),
{
    if steps.len() > 0 {
        let tail = steps.skip(1);
        assert(path_of(steps[0]) != path);
        assert forall|i: int| 0 <= i < tail.len() implies path_of(#[trigger] tail[i]) != path by {
            assert(tail[i] == steps[i + 1]);
        }
        lemma_untouched(apply(disk, steps[0]), tail, path);
    }
}

/// Steps that work on different paths each leave their node behind.
proof fn lemma_distinct_steps(disk: Map<Seq<Seq<char>>, Node>, steps: Seq<FsStepView>, k: int)
    requires
        0 <= k < steps.len(),
        forall|i: int, j: int|
            0 <= i < j < steps.len() ==> path_of(#[trigger] steps[i]) != path_of(
                #[trigger] steps[j],
            ),
    ensures
        has(apply_all(disk, steps), path_of(steps[k]), node_of(steps[k])),
    decreases steps.len(),
{
    let tail = steps.skip(1);
    assert forall|i: int, j: int| 0 <= i < j < tail.len() implies path_of(#[trigger] tail[i])
        != path_of(#[trigger] tail[j]) by {
        assert(tail[i] == steps[i + 1] && tail[j] == steps[j + 1]);
    }
    if k == 0 {
        assert forall|i: int| 0 <= i < tail.len() implies path_of(#[trigger] tail[i]) != path_of(
            steps[0],
        ) by {
            assert(tail[i] == steps[i + 1]);
        }
        lemma_untouched(apply(disk, steps[0]), tail, path_of(steps[0]));
    } else {
        assert(tail[k - 1] == steps[k]);
        lemma_distinct_steps(apply(disk, steps[0]), tail, k - 1);
    }
}

/// A path below a path that lies below a prefix lies below the prefix.
proof fn lemma_under_chain(path: Seq<Seq<char>>, middle: Seq<Seq<char>>, prefix: Seq<Seq<char>>)
    requires
        under(path, middle),
        under(middle, prefix),
    ensures
        under(path, prefix),
{
    assert(path.subrange(0, prefix.len() as int) =~= middle.subrange(0, prefix.len() as int));
}

/// Nothing lies below two different entries of one directory.
proof fn lemma_siblings_apart(
    path: Seq<Seq<char>>,
    parent: Seq<Seq<char>>,
    one: Seq<char>,
    other: Seq<char>,
)
    requires
        one != other,
        under(path, parent.push(one)),
    ensures
        !under(path, parent.push(other)),
{
    if under(path, parent.push(other)) {
        let n = parent.len() as int;
        assert(path.subrange(0, n + 1)[n] == parent.push(one)[n]);
        assert(path.subrange(0, n + 1)[n] == parent.push(other)[n]);
    }
}

/// Every step of laying out a tree works inside the tree's own directory.
pub proof fn lemma_steps_stay_inside(directory: DirectoryView, root: Seq<Seq<char>>, k: int)
    requires
        0 <= k < realise_steps(directory, root).len(),
    ensures
        under(path_of(realise_steps(directory, root)[k]), root.push(directory.name)),
    decreases directory, directory.subdirectories.len() + 1,
{
    let path = root.push(directory.name);
    let head = seq![FsStepView::CreateDir(path)];
    let writes = file_steps(directory.files, path);
    let rest = subdirectory_steps(directory, path, 0);
    assert(path.subrange(0, path.len() as int) =~= path);
    if k == 0 {
    } else if k < 1 + writes.len() {
        let target = path.push(directory.files[k - 1].name);
        assert(realise_steps(directory, root)[k] == writes[k - 1]);
        assert(target.subrange(0, path.len() as int) =~= path);
    } else {
        let at = k - 1 - writes.len();
        assert(realise_steps(directory, root)[k] == rest[at]);
        lemma_subdirectory_steps_stay_inside(directory, path, 0, at);
    }
}

proof fn lemma_subdirectory_steps_stay_inside(
    directory: DirectoryView,
    path: Seq<Seq<char>>,
    from: nat,
    k: int,
)
    requires
        0 <= k < subdirectory_steps(directory, path, from).len(),
    ensures
        under(path_of(subdirectory_steps(directory, path, from)[k]), path),
        exists|j: int|
            from <= j < directory.subdirectories.len() && under(
                path_of(subdirectory_steps(directory, path, from)[k]),
                path.push((#[trigger] directory.subdirectories[j]).name),
            ),
    decreases directory, directory.subdirectories.len() - from,
{
    let sub = directory.subdirectories[from as int];
    let first = realise_steps(sub, path);
    let later = subdirectory_steps(directory, path, from + 1);
    let step = subdirectory_steps(directory, path, from)[k];
    if k < first.len() {
        assert(step == first[k]);
        lemma_steps_stay_inside(sub, path, k);
        assert(path.push(sub.name).subrange(0, path.len() as int) =~= path);
        lemma_under_chain(path_of(step), path.push(sub.name), path);
        assert(under(path_of(step), path.push(directory.subdirectories[from as int].name)));
    } else {
        assert(step == later[k - first.len()]);
        lemma_subdirectory_steps_stay_inside(directory, path, from + 1, k - first.len());
        let j = choose|j: int|
            from + 1 <= j < directory.subdirectories.len() && under(
                path_of(step),
                path.push((#[trigger] directory.subdirectories[j]).name),
            );
        assert(under(path_of(step), path.push(directory.subdirectories[j].name)));
    }
}

/// The directory a path lies in.
pub open spec fn parent(path: Seq<Seq<char>>) -> Seq<Seq<char>> {
    path.drop_last()
}

/// A tree is laid out root first: but for the first step, which creates the
/// tree's own directory, every step works in a directory that an earlier step
/// created.
pub proof fn lemma_parents_come_first(directory: DirectoryView, root: Seq<Seq<char>>, k: int)
    requires
        1 <= k < realise_steps(directory, root).len(),
    ensures
        realise_steps(directory, root)[0] == FsStepView::CreateDir(root.push(directory.name)),
        exists|j: int|
            0 <= j < k && #[trigger] realise_steps(directory, root)[j] == FsStepView::CreateDir(
                parent(path_of(realise_steps(directory, root)[k])),
            ),
    decreases directory, directory.subdirectories.len() + 1,
{
    let path = root.push(directory.name);
    let writes = file_steps(directory.files, path);
    let rest = subdirectory_steps(directory, path, 0);
    let steps = realise_steps(directory, root);
    if k < 1 + writes.len() {
        assert(steps[k] == writes[k - 1]);
        assert(path.push(directory.files[k - 1].name).drop_last() =~= path);
        assert(steps[0] == FsStepView::CreateDir(parent(path_of(steps[k]))));
    } else {
        let offset = 1 + writes.len();
        let at = k - offset;
        assert(steps[k] == rest[at]);
        lemma_subdirectory_parents_come_first(directory, path, 0, at);
        if parent(path_of(rest[at])) == path {
            assert(steps[0] == FsStepView::CreateDir(parent(path_of(steps[k]))));
        } else {
            let j = choose|j: int|
                0 <= j < at && #[trigger] rest[j] == FsStepView::CreateDir(
                    parent(path_of(rest[at])),
                );
            assert(steps[offset + j] == rest[j]);
        }
    }
}

proof fn lemma_subdirectory_parents_come_first(
    directory: DirectoryView,
    path: Seq<Seq<char>>,
    from: nat,
    k: int,
)
    requires
        0 <= k < subdirectory_steps(directory, path, from).len(),
    ensures
        parent(path_of(subdirectory_steps(directory, path, from)[k])) == path || exists|j: int|
            0 <= j < k && #[trigger] subdirectory_steps(directory, path, from)[j]
                == FsStepView::CreateDir(
                parent(path_of(subdirectory_steps(directory, path, from)[k])),
            ),
    decreases directory, directory.subdirectories.len() - from,
{
    let sub = directory.subdirectories[from as int];
    let first = realise_steps(sub, path);
    let later = subdirectory_steps(directory, path, from + 1);
    let steps = subdirectory_steps(directory, path, from);
    if k < first.len() {
        assert(steps[k] == first[k]);
        if k == 0 {
            assert(path.push(sub.name).drop_last() =~= path);
        } else {
            lemma_parents_come_first(sub, path, k);
            let j = choose|j: int|
                0 <= j < k && #[trigger] first[j] == FsStepView::CreateDir(
                    parent(path_of(first[k])),
                );
            assert(steps[j] == first[j]);
        }
    } else {
        let at = k - first.len();
        assert(steps[k] == later[at]);
        lemma_subdirectory_parents_come_first(directory, path, from + 1, at);
        if parent(path_of(later[at])) != path {
            let j = choose|j: int|
                0 <= j < at && #[trigger] later[j] == FsStepView::CreateDir(
                    parent(path_of(later[at])),
                );
            assert(steps[first.len() + j] == later[j]);
        }
    }
}

/// Laying out a tree leaves alone whatever lies outside the tree's own
/// directory.
pub proof fn lemma_outside_is_untouched(
    disk: Map<Seq<Seq<char>>, Node>,
    directory: DirectoryView,
    root: Seq<Seq<char>>,
    path: Seq<Seq<char>>,
)
    requires
        !under(path, root.push(directory.name)),
    ensures
        same_at(apply_all(disk, realise_steps(directory, root)), disk, path),
{
    let steps = realise_steps(directory, root);
    assert forall|i: int| 0 <= i < steps.len() implies path_of(#[trigger] steps[i]) != path by {
        lemma_steps_stay_inside(directory, root, i);
    }
    lemma_untouched(disk, steps, path);
}

/// Whether `place` is a place of the tree laid out below `root`: the
/// directory itself, one of its files, or a place of one of its
/// subdirectories.
pub open spec fn place_of_tree(
    directory: DirectoryView,
    root: Seq<Seq<char>>,
    place: Seq<Seq<char>>,
) -> bool
    decreases directory,
{
    let path = root.push(directory.name);
    ||| place == path
    ||| exists|i: int|
        0 <= i < directory.files.len() && place == path.push(
            (#[trigger] directory.files[i]).name,
        )
    ||| exists|j: int|
        0 <= j < directory.subdirectories.len() && place_of_tree(
            #[trigger] directory.subdirectories[j],
            path,
            place,
        )
}

/// Every step of laying out a tree works on a place of the tree.
pub proof fn lemma_steps_work_on_the_tree(directory: DirectoryView, root: Seq<Seq<char>>, k: int)
    requires
        0 <= k < realise_steps(directory, root).len(),
    ensures
        place_of_tree(directory, root, path_of(realise_steps(directory, root)[k])),
    decreases directory, directory.subdirectories.len() + 1,
{
    let path = root.push(directory.name);
    let writes = file_steps(directory.files, path);
    let rest = subdirectory_steps(directory, path, 0);
    let step = realise_steps(directory, root)[k];
    if k == 0 {
    } else if k < 1 + writes.len() {
        assert(step == writes[k - 1]);
        assert(path_of(step) == path.push(directory.files[k - 1].name));
    } else {
        let at = k - 1 - writes.len();
        assert(step == rest[at]);
        lemma_subdirectory_steps_work_on_the_tree(directory, path, 0, at);
    }
}

proof fn lemma_subdirectory_steps_work_on_the_tree(
    directory: DirectoryView,
    path: Seq<Seq<char>>,
    from: nat,
    k: int,
)
    requires
        0 <= k < subdirectory_steps(directory, path, from).len(),
    ensures
        exists|j: int|
            from <= j < directory.subdirectories.len() && place_of_tree(
                #[trigger] directory.subdirectories[j],
                path,
                path_of(subdirectory_steps(directory, path, from)[k]),
            ),
    decreases directory, directory.subdirectories.len() - from,
{
    let sub = directory.subdirectories[from as int];
    let first = realise_steps(sub, path);
    let later = subdirectory_steps(directory, path, from + 1);
    let step = subdirectory_steps(directory, path, from)[k];
    if k < first.len() {
        assert(step == first[k]);
        lemma_steps_work_on_the_tree(sub, path, k);
        assert(place_of_tree(directory.subdirectories[from as int], path, path_of(step)));
    } else {
        assert(step == later[k - first.len()]);
        lemma_subdirectory_steps_work_on_the_tree(directory, path, from + 1, k - first.len());
        let j = choose|j: int|
            from + 1 <= j < directory.subdirectories.len() && place_of_tree(
                #[trigger] directory.subdirectories[j],
                path,
                path_of(step),
            );
        assert(place_of_tree(directory.subdirectories[j], path, path_of(step)));
    }
}

/// Nothing but the tree appears in the sandbox: where the disk had nothing in
/// the tree's own directory, whatever is there after the tree was laid out is
/// the directory itself, one of its files, or a place of one of its
/// subdirectories.
pub proof fn lemma_nothing_else_appears(
    disk: Map<Seq<Seq<char>>, Node>,
    directory: DirectoryView,
    root: Seq<Seq<char>>,
    place: Seq<Seq<char>>,
)
    requires
        forall|before: Seq<Seq<char>>|
            under(before, root.push(directory.name)) ==> !(#[trigger] disk.dom().contains(
                before,
            )),
        under(place, root.push(directory.name)),
        apply_all(disk, realise_steps(directory, root)).dom().contains(place),
    ensures
        place_of_tree(directory, root, place),
{
    let steps = realise_steps(directory, root);
    assert(!disk.dom().contains(place));
    if forall|i: int| 0 <= i < steps.len() ==> path_of(#[trigger] steps[i]) != place {
        lemma_untouched(disk, steps, place);
    } else {
        let k = choose|k: int| 0 <= k < steps.len() && path_of(#[trigger] steps[k]) == place;
        lemma_steps_work_on_the_tree(directory, root, k);
    }
}

/// Whether a disk shows a tree depends only on what is inside the tree's own
/// directory.
proof fn lemma_shows_frame(
    before: Map<Seq<Seq<char>>, Node>,
    after: Map<Seq<Seq<char>>, Node>,
    directory: DirectoryView,
    root: Seq<Seq<char>>,
)
    requires
        shows(before, directory, root),
        forall|path: Seq<Seq<char>>|
            under(path, root.push(directory.name)) ==> #[trigger] same_at(after, before, path),
    ensures
        shows(after, directory, root),
    decreases directory,
{
    let here = root.push(directory.name);
    assert(here.subrange(0, here.len() as int) =~= here);
    assert(same_at(after, before, here));
    assert forall|i: int| 0 <= i < directory.files.len() implies has(
        after,
        here.push((#[trigger] directory.files[i]).name),
        Node::File(directory.files[i].bytes),
    ) by {
        let target = here.push(directory.files[i].name);
        assert(target.subrange(0, here.len() as int) =~= here);
        assert(same_at(after, before, target));
    }
    assert forall|i: int| 0 <= i < directory.subdirectories.len() implies shows(
        after,
        #[trigger] directory.subdirectories[i],
        here,
    ) by {
        let sub = directory.subdirectories[i];
        assert forall|path: Seq<Seq<char>>| under(path, here.push(sub.name)) implies #[trigger] same_at(
            after,
            before,
            path,
        ) by {
            assert(here.push(sub.name).subrange(0, here.len() as int) =~= here);
            lemma_under_chain(path, here.push(sub.name), here);
        }
        lemma_shows_frame(before, after, sub, here);
    }
}

/// Carried out on any disk, the steps that lay out a tree leave a disk that
/// shows the tree: every directory is there, and every file with exactly its
/// bytes. This holds of every tree in which no two entries of a directory
/// share a name.
pub proof fn lemma_realised_tree_reads_back(
    disk: Map<Seq<Seq<char>>, Node>,
    directory: DirectoryView,
    root: Seq<Seq<char>>,
)
    requires
        names_distinct(directory),
    ensures
        shows(apply_all(disk, realise_steps(directory, root)), directory, root),
    decreases directory, directory.subdirectories.len() + 1,
{
    let here = root.push(directory.name);
    let head = seq![FsStepView::CreateDir(here)];
    let writes = file_steps(directory.files, here);
    let rest = subdirectory_steps(directory, here, 0);
    let own = head + writes;
    let made = apply_all(disk, own);
    let done = apply_all(made, rest);
    assert(realise_steps(directory, root) == own + rest);
    lemma_apply_all_concat(disk, own, rest);

    // the directory and its files are distinct places
    assert forall|i: int, j: int| 0 <= i < j < own.len() implies path_of(#[trigger] own[i])
        != path_of(#[trigger] own[j]) by {
        let pj = here.push(directory.files[j - 1].name);
        assert(path_of(own[j]) == pj);
        if i == 0 {
            assert(pj.len() != here.len());
        } else {
            let pi = here.push(directory.files[i - 1].name);
            assert(path_of(own[i]) == pi);
            assert(pi[here.len() as int] != pj[here.len() as int]);
        }
    }
    lemma_subdirectories_read_back(made, directory, here, 0);

    // what the subdirectories' steps leave alone
    assert(has(done, here, Node::Directory)) by {
        lemma_distinct_steps(disk, own, 0);
        assert forall|j: int| 0 <= j < directory.subdirectories.len() implies !under(
            here,
            here.push((#[trigger] directory.subdirectories[j]).name),
        ) by {}
        assert(same_at(done, made, here));
    }
    assert forall|i: int| 0 <= i < directory.files.len() implies has(
        done,
        here.push((#[trigger] directory.files[i]).name),
        Node::File(directory.files[i].bytes),
    ) by {
        let target = here.push(directory.files[i].name);
        lemma_distinct_steps(disk, own, i + 1);
        assert(own[i + 1] == writes[i]);
        assert forall|j: int| 0 <= j < directory.subdirectories.len() implies !under(
            target,
            here.push((#[trigger] directory.subdirectories[j]).name),
        ) by {
            let other = here.push(directory.subdirectories[j].name);
            if under(target, other) {
                assert(target.subrange(0, other.len() as int) =~= target);
                assert(target[here.len() as int] == other[here.len() as int]);
            }
        }
        assert(same_at(done, made, target));
    }
}

/// Carried out on any disk, the steps that lay out the subdirectories from
/// index `from` on leave a disk that shows each of them, and leave alone
/// whatever lies outside of them all.
proof fn lemma_subdirectories_read_back(
    disk: Map<Seq<Seq<char>>, Node>,
    directory: DirectoryView,
    path: Seq<Seq<char>>,
    from: nat,
)
    requires
        names_distinct(directory),
    ensures
        forall|j: int|
            from <= j < directory.subdirectories.len() ==> shows(
                apply_all(disk, subdirectory_steps(directory, path, from)),
                #[trigger] directory.subdirectories[j],
                path,
            ),
        forall|place: Seq<Seq<char>>|
            (forall|j: int|
                from <= j < directory.subdirectories.len() ==> !under(
                    place,
                    path.push((#[trigger] directory.subdirectories[j]).name),
                )) ==> #[trigger] same_at(
                apply_all(disk, subdirectory_steps(directory, path, from)),
                disk,
                place,
            ),
    decreases directory, directory.subdirectories.len() - from,
{
    let steps = subdirectory_steps(directory, path, from);
    if from >= directory.subdirectories.len() {
        assert(steps =~= Seq::empty());
    } else {
        let sub = directory.subdirectories[from as int];
        let first = realise_steps(sub, path);
        let later = subdirectory_steps(directory, path, from + 1);
        let made = apply_all(disk, first);
        let done = apply_all(made, later);
        lemma_apply_all_concat(disk, first, later);
        lemma_realised_tree_reads_back(disk, sub, path);
        lemma_subdirectories_read_back(made, directory, path, from + 1);

        assert forall|j: int| from <= j < directory.subdirectories.len() implies shows(
            done,
            #[trigger] directory.subdirectories[j],
            path,
        ) by {
            if j == from {
                assert forall|place: Seq<Seq<char>>| under(place, path.push(sub.name)) implies #[trigger] same_at(
                    done,
                    made,
                    place,
                ) by {
                    assert forall|k: int|
                        from + 1 <= k < directory.subdirectories.len() implies !under(
                        place,
                        path.push((#[trigger] directory.subdirectories[k]).name),
                    ) by {
                        lemma_siblings_apart(
                            place,
                            path,
                            sub.name,
                            directory.subdirectories[k].name,
                        );
                    }
                }
                lemma_shows_frame(made, done, sub, path);
            }
        }
        assert forall|place: Seq<Seq<char>>|
            (forall|j: int|
                from <= j < directory.subdirectories.len() ==> !under(
                    place,
                    path.push((#[trigger] directory.subdirectories[j]).name),
                )) implies #[trigger] same_at(done, disk, place) by {
            assert(!under(place, path.push(directory.subdirectories[from as int].name)));
            lemma_outside_is_untouched(disk, sub, path, place);
            assert forall|j: int| from + 1 <= j < directory.subdirectories.len() implies !under(
                place,
                path.push((#[trigger] directory.subdirectories[j]).name),
            ) by {}
            assert(same_at(done, made, place));
        }
    }
}

} // verus!
