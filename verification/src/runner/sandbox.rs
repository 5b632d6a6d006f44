//! Laying out a working tree: the steps that create a directory, write its
//! files, and do the same for each of its subdirectories, root first.

use vstd::prelude::*;
use vstd::slice::slice_to_vec;
use crate::model::{
    directory_views, file_views, lemma_directory_view, text_views, Directory, DirectoryView,
    FileView,
};

verus! {

/// One step of laying out a tree. A path is a list of names, outermost first.
#[derive(Debug, PartialEq, Eq)]
pub enum FsStep {
    /// Create the directory at the path, and what is missing above it.
    CreateDir(Vec<String>),
    /// Write the bytes to the file at the path.
    WriteFile(Vec<String>, Vec<u8>),
}

pub enum FsStepView {
    CreateDir(Seq<Seq<char>>),
    WriteFile(Seq<Seq<char>>, Seq<u8>),
}

impl View for FsStep {
    type V = FsStepView;

    open spec fn view(&self) -> FsStepView {
        match self {
            FsStep::CreateDir(path) => FsStepView::CreateDir(text_views(path@)),
            FsStep::WriteFile(path, bytes) => FsStepView::WriteFile(text_views(path@), bytes@),
        }
    }
}

/// The views of a vector of steps, in order.
pub open spec fn step_views(steps: Seq<FsStep>) -> Seq<FsStepView> {
    Seq::new(steps.len(), |i: int| steps[i]@)
}

/// One write for each file, in order, each below `path`.
pub open spec fn file_steps(files: Seq<FileView>, path: Seq<Seq<char>>) -> Seq<FsStepView> {
    Seq::new(files.len(), |i: int| FsStepView::WriteFile(path.push(files[i].name), files[i].bytes))
}

/// The steps that lay out `directory` below `root`: create it, write its
/// files verbatim, then lay out each subdirectory below it, in order.
pub open spec fn realise_steps(directory: DirectoryView, root: Seq<Seq<char>>) -> Seq<FsStepView>
    decreases directory, directory.subdirectories.len() + 1,
{
    let path = root.push(directory.name);
    seq![FsStepView::CreateDir(path)] + file_steps(directory.files, path) + subdirectory_steps(
        directory,
        path,
        0,
    )
}

/// The steps that lay out the subdirectories of `directory` from index `from`
/// on, below `path`.
pub open spec fn subdirectory_steps(
    directory: DirectoryView,
    path: Seq<Seq<char>>,
    from: nat,
) -> Seq<FsStepView>
    decreases directory, directory.subdirectories.len() - from,
{
    if from >= directory.subdirectories.len() {
        Seq::empty()
    } else {
        realise_steps(directory.subdirectories[from as int], path) + subdirectory_steps(
            directory,
            path,
            from + 1,
        )
    }
}

/// The directory under another name.
pub open spec fn renamed(directory: DirectoryView, name: Seq<char>) -> DirectoryView {
    DirectoryView { name, files: directory.files, subdirectories: directory.subdirectories }
}

/// A copy of a path.
pub fn copy_path(path: &Vec<String>) -> (copy: Vec<String>)
    ensures
        text_views(copy@) == text_views(path@),
{
    let mut copy: Vec<String> = Vec::new();
    let mut i: usize = 0;
    while i < path.len()
        invariant
            i <= path.len(),
            copy@.len() == i,
            forall|k: int| 0 <= k < i ==> copy@[k]@ == path@[k]@,
        decreases path.len() - i,
    {
        copy.push(path[i].clone());
        i += 1;
    }
    assert(text_views(copy@) =~= text_views(path@));
    copy
}

/// The path one name below `path`.
fn below(path: &Vec<String>, name: &str) -> (longer: Vec<String>)
    ensures
        text_views(longer@) == text_views(path@).push(name@),
{
    let mut longer = copy_path(path);
    let ghost before = longer@;
    longer.push(String::from_str(name));
    assert(text_views(longer@) =~= text_views(before).push(name@));
    longer
}

impl Directory {
    /// Appends to `steps` the steps that lay out this directory, under the
    /// name `name`, below `root`.
    fn realise_into(&self, name: &str, root: &Vec<String>, steps: &mut Vec<FsStep>)
        ensures
            step_views(final(steps)@) == step_views(old(steps)@) + realise_steps(
                renamed(self@, name@),
                text_views(root@),
            ),
        decreases self,
    {
        proof {
            lemma_directory_view(*self);
        }
        let ghost start = step_views(steps@);
        let ghost shown = renamed(self@, name@);
        let ghost goal = start + realise_steps(shown, text_views(root@));
        let path = below(root, name);
        let ghost pathv = text_views(path@);
        let ghost head = seq![FsStepView::CreateDir(pathv)];
        let ghost writes = file_steps(shown.files, pathv);
        steps.push(FsStep::CreateDir(copy_path(&path)));
        assert(step_views(steps@) =~= start + head + writes.take(0));
        let mut i: usize = 0;
        while i < self.files.len()
            invariant
                i <= self.files.len(),
                shown.files == file_views(self.files@),
                pathv == text_views(path@),
                writes == file_steps(shown.files, pathv),
                step_views(steps@) == start + head + writes.take(i as int),
            decreases self.files.len() - i,
        {
            let ghost before = step_views(steps@);
            let file = &self.files[i];
            let step = FsStep::WriteFile(
                below(&path, file.name.as_str()),
                slice_to_vec(file.bytes.as_slice()),
            );
            assert(step@ == writes[i as int]);
            steps.push(step);
            assert(step_views(steps@) =~= before.push(writes[i as int]));
            assert(start + head + writes.take(i as int + 1) =~= (start + head + writes.take(
                i as int,
            )).push(writes[i as int]));
            i += 1;
        }
        assert(writes.take(i as int) =~= writes);
        let mut j: usize = 0;
        assert(goal =~= (start + head + writes) + subdirectory_steps(shown, pathv, 0));
        while j < self.subdirectories.len()
            invariant
                j <= self.subdirectories.len(),
                shown.subdirectories == directory_views(self.subdirectories@),
                pathv == text_views(path@),
                goal == step_views(steps@) + subdirectory_steps(shown, pathv, j as nat),
            decreases self.subdirectories.len() - j,
        {
            let ghost before = step_views(steps@);
            let sub = &self.subdirectories[j];
            proof {
                lemma_directory_view(*sub);
                assert(renamed(sub@, sub.name@) == sub@);
                assert(shown.subdirectories[j as int] == sub@);
            }
            sub.realise_into(sub.name.as_str(), &path, steps);
            assert(before + (realise_steps(sub@, pathv) + subdirectory_steps(
                shown,
                pathv,
                (j + 1) as nat,
            )) =~= step_views(steps@) + subdirectory_steps(shown, pathv, (j + 1) as nat));
            j += 1;
        }
        assert(step_views(steps@) + Seq::<FsStepView>::empty() =~= step_views(steps@));
    }

    /// The steps that lay out this directory under the name `name` below
    /// `root`: the directory itself first, then its files with their bytes
    /// verbatim, then each subdirectory in the same way.
    pub fn realise_as(&self, name: &str, root: &Vec<String>) -> (steps: Vec<FsStep>)
        ensures
            step_views(steps@) == realise_steps(renamed(self@, name@), text_views(root@)),
    {
        let mut steps: Vec<FsStep> = Vec::new();
        assert(step_views(steps@) =~= Seq::empty());
        self.realise_into(name, root, &mut steps);
        assert(Seq::<FsStepView>::empty() + realise_steps(
            renamed(self@, name@),
            text_views(root@),
        ) =~= realise_steps(renamed(self@, name@), text_views(root@)));
        steps
    }

    /// The steps that lay out this directory below `root`.
    pub fn realise(&self, root: &Vec<String>) -> (steps: Vec<FsStep>)
        ensures
            step_views(steps@) == realise_steps(self@, text_views(root@)),
    {
        proof {
            lemma_directory_view(*self);
            assert(renamed(self@, self.name@) == self@);
        }
        self.realise_as(self.name.as_str(), root)
    }
}

} // verus!
