//! Copying files and directories with all that they hold, names that are no text
//! among them.

use vstd::prelude::*;

use crate::path::{
    is_plain_name, join, joined, joined_name_is_found_again, leaf_of, parent_of, tidy_end,
};
use crate::scan::byte_texts;

verus! {

/// From where to where.
pub struct Job {
    pub from: Vec<u8>,
    pub to: Vec<u8>,
}

/// Something to be done.
pub enum Task {
    /// To find out whether `from` is a directory.
    Inspect(Job),
    /// To make the directory `to`, and those above it.
    Make(Job),
    /// To read the names in the directory `from`.
    List(Job),
    /// To make the directories above `to`, then to copy the file `from` to it.
    File(Job),
    /// To give up: a name could not be read.
    Fail,
}

/// The content of a job.
#[verifier::ext_equal]
pub struct JobView {
    pub from: Seq<u8>,
    pub to: Seq<u8>,
}

/// The content of a task.
#[verifier::ext_equal]
pub enum TaskView {
    Inspect(JobView),
    Make(JobView),
    List(JobView),
    File(JobView),
    Fail,
}

impl View for Job {
    type V = JobView;

    open spec fn view(&self) -> JobView {
        JobView { from: self.from@, to: self.to@ }
    }
}

impl View for Task {
    type V = TaskView;

    open spec fn view(&self) -> TaskView {
        match self {
            Task::Inspect(j) => TaskView::Inspect(j@),
            Task::Make(j) => TaskView::Make(j@),
            Task::List(j) => TaskView::List(j@),
            Task::File(j) => TaskView::File(j@),
            Task::Fail => TaskView::Fail,
        }
    }
}

/// The contents of some tasks.
pub open spec fn task_views(v: Seq<Task>) -> Seq<TaskView> {
    v.map_values(|t: Task| t@)
}

/// How a task went.
pub enum Outcome {
    /// Whether it is a directory.
    Kind { is_dir: bool },
    /// Whether it was done.
    Did { ok: bool },
    /// The names in the directory, up to the first one that could not be read, and
    /// whether these are all.
    Names { names: Vec<Vec<u8>>, complete: bool },
}

/// The content of an outcome.
pub enum OutcomeView {
    Kind { is_dir: bool },
    Did { ok: bool },
    Names { names: Seq<Seq<u8>>, complete: bool },
}

impl View for Outcome {
    type V = OutcomeView;

    open spec fn view(&self) -> OutcomeView {
        match self {
            Outcome::Kind { is_dir } => OutcomeView::Kind { is_dir: *is_dir },
            Outcome::Did { ok } => OutcomeView::Did { ok: *ok },
            Outcome::Names { names, complete } => OutcomeView::Names {
                names: byte_texts(names@),
                complete: *complete,
            },
        }
    }
}

/// The job for a name in a directory.
pub open spec fn below(j: JobView, name: Seq<u8>) -> JobView {
    JobView { from: joined(j.from, name), to: joined(j.to, name) }
}

/// The tasks for the names in a directory, the first name last.
pub open spec fn pending(j: JobView, names: Seq<Seq<u8>>) -> Seq<TaskView>
    decreases names.len(),
{
    if names.len() == 0 {
        Seq::empty()
    } else {
        pending(j, names.skip(1)).push(TaskView::Inspect(below(j, names[0])))
    }
}

/// Whether an outcome is one of a task.
pub open spec fn is_outcome_of(t: TaskView, e: OutcomeView) -> bool {
    match t {
        TaskView::Inspect(_) => e is Kind,
        TaskView::Make(_) => e is Did,
        TaskView::List(_) => e is Names || e == (OutcomeView::Did { ok: false }),
        TaskView::File(_) => e is Did,
        TaskView::Fail => false,
    }
}

/// The tasks that are left after the last one had an outcome. The last task is
/// the one to be done next, and after a failure nothing is done any more. A
/// directory that could not be read had the outcome that it was not done.
pub open spec fn tasks_after(tasks: Seq<TaskView>, e: OutcomeView) -> Seq<TaskView> {
    let rest = tasks.drop_last();
    match (tasks.last(), e) {
        (TaskView::Inspect(j), OutcomeView::Kind { is_dir }) => rest.push(
            if is_dir {
                TaskView::Make(j)
            } else {
                TaskView::File(j)
            },
        ),
        (TaskView::Make(j), OutcomeView::Did { ok }) => if ok {
            rest.push(TaskView::List(j))
        } else {
            seq![TaskView::Fail]
        },
        (TaskView::List(j), OutcomeView::Names { names, complete }) => if complete {
            rest + pending(j, names)
        } else {
            rest.push(TaskView::Fail) + pending(j, names)
        },
        (TaskView::File(_), OutcomeView::Did { ok }) => if ok {
            rest
        } else {
            seq![TaskView::Fail]
        },
        _ => seq![TaskView::Fail],
    }
}

/// A copy in progress.
pub struct CopyWork {
    pub tasks: Vec<Task>,
}

impl CopyWork {
    /// Starts to copy.
    pub fn new(from: Vec<u8>, to: Vec<u8>) -> (r: CopyWork)
        ensures
            task_views(r.tasks@) == seq![
                TaskView::Inspect(JobView { from: from@, to: to@ }),
            ],
    {
        let mut tasks: Vec<Task> = Vec::new();
        tasks.push(Task::Inspect(Job { from, to }));
        assert(task_views(tasks@) =~= seq![TaskView::Inspect(JobView { from: from@, to: to@ })]);
        CopyWork { tasks }
    }

    /// What is to be done next; nothing once all is copied.
    pub fn next(&self) -> (r: Option<&Task>)
        ensures
            match r {
                Some(t) => self.tasks@.len() > 0 && t@ == task_views(self.tasks@).last(),
                None => self.tasks@.len() == 0,
            },
    {
        let n = self.tasks.len();
        if n == 0 {
            None
        } else {
            Some(&self.tasks[n - 1])
        }
    }

    /// Gives up.
    fn fail(&mut self)
        ensures
            task_views(final(self).tasks@) == seq![TaskView::Fail],
    {
        self.tasks.clear();
        self.tasks.push(Task::Fail);
        assert(task_views(self.tasks@) =~= seq![TaskView::Fail]);
    }

    /// Adds a task.
    fn add(&mut self, t: Task)
        ensures
            task_views(final(self).tasks@) == task_views(old(self).tasks@).push(t@),
    {
        self.tasks.push(t);
        assert(task_views(self.tasks@) =~= task_views(old(self).tasks@).push(t@));
    }

    /// Adds the tasks for the names in a directory.
    fn add_names(&mut self, j: &Job, names: &Vec<Vec<u8>>)
        ensures
            task_views(final(self).tasks@) == task_views(old(self).tasks@) + pending(
                j@,
                byte_texts(names@),
            ),
    {
        let ghost ns = byte_texts(names@);
        let ghost base = task_views(self.tasks@);
        let mut i: usize = names.len();
        assert(base + pending(j@, ns.skip(i as int)) =~= base);
        while i > 0
            invariant
                i <= names@.len(),
                ns == byte_texts(names@),
                task_views(self.tasks@) == base + pending(j@, ns.skip(i as int)),
            decreases i,
        {
            i -= 1;
            let name = &names[i];
            assert(ns[i as int] == name@);
            let ghost s = ns.skip(i as int);
            assert(s[0] == name@);
            assert(s.skip(1) =~= ns.skip(i + 1));
            let t = Task::Inspect(
                Job { from: join(j.from.as_slice(), name.as_slice()), to: join(j.to.as_slice(), name.as_slice()) },
            );
            self.add(t);
            assert(task_views(self.tasks@) =~= base + pending(j@, s));
        }
        assert(ns.skip(0) =~= ns);
    }

    /// Takes how the task that was next went.
    pub fn copy_rec(&mut self, e: Outcome)
        requires
            old(self).tasks@.len() > 0,
            is_outcome_of(task_views(old(self).tasks@).last(), e@),
        ensures
            task_views(final(self).tasks@) == tasks_after(task_views(old(self).tasks@), e@),
    {
        let ghost before = task_views(self.tasks@);
        let t = match self.tasks.pop() {
            Some(t) => t,
            None => {
                return;
            },
        };
        assert(task_views(self.tasks@) =~= before.drop_last());
        assert(t@ == before.last());
        match (t, e) {
            (Task::Inspect(j), Outcome::Kind { is_dir }) => {
                if is_dir {
                    self.add(Task::Make(j));
                } else {
                    self.add(Task::File(j));
                }
            },
            (Task::Make(j), Outcome::Did { ok }) => {
                if ok {
                    self.add(Task::List(j));
                } else {
                    self.fail();
                }
            },
            (Task::List(j), Outcome::Names { names, complete }) => {
                if !complete {
                    self.add(Task::Fail);
                }
                self.add_names(&j, &names);
            },
            (Task::File(_), Outcome::Did { ok }) => {
                if !ok {
                    self.fail();
                }
            },
            _ => {
                self.fail();
            },
        }
    }
}

/// What stands at a path: a file, or a directory with names and what they stand
/// for.
pub enum Tree {
    File,
    Dir { names: Seq<Seq<u8>>, trees: Seq<Tree> },
}

/// What was done to the disk.
#[verifier::ext_equal]
pub enum Deed {
    Made(Seq<u8>),
    Copied(Seq<u8>, Seq<u8>),
}

/// What copying a tree does: a directory is made before what it holds is copied,
/// in the order of its names.
pub open spec fn deeds(t: Tree, j: JobView) -> Seq<Deed>
    decreases t,
{
    match t {
        Tree::File => seq![Deed::Copied(j.from, j.to)],
        Tree::Dir { names, trees } => seq![Deed::Made(j.to)] + deeds_below(names, trees, j),
    }
}

/// What copying the trees in a directory does.
pub open spec fn deeds_below(names: Seq<Seq<u8>>, trees: Seq<Tree>, j: JobView) -> Seq<Deed>
    decreases trees,
{
    if trees.len() == 0 {
        Seq::empty()
    } else {
        deeds(trees[0], below(j, names[0])) + deeds_below(names.skip(1), trees.skip(1), j)
    }
}

/// How many tasks copying a tree takes.
pub open spec fn effort(t: Tree) -> nat
    decreases t,
{
    match t {
        Tree::File => 2,
        Tree::Dir { names, trees } => 3 + effort_below(trees),
    }
}

/// How many tasks copying the trees in a directory takes.
pub open spec fn effort_below(trees: Seq<Tree>) -> nat
    decreases trees,
{
    if trees.len() == 0 {
        0
    } else {
        effort(trees[0]) + effort_below(trees.skip(1))
    }
}

/// Whether a tree stands at a path of a disk, which gives the names in each
/// directory, and nothing for a file.
pub open spec fn stands_at(
    disk: spec_fn(Seq<u8>) -> Option<Seq<Seq<u8>>>,
    t: Tree,
    path: Seq<u8>,
) -> bool
    decreases t,
{
    match t {
        Tree::File => disk(path) is None,
        Tree::Dir { names, trees } => disk(path) == Some(names) && names.len() == trees.len()
            && stand_below(disk, names, trees, path),
    }
}

/// Whether the trees of a directory stand below its path.
pub open spec fn stand_below(
    disk: spec_fn(Seq<u8>) -> Option<Seq<Seq<u8>>>,
    names: Seq<Seq<u8>>,
    trees: Seq<Tree>,
    path: Seq<u8>,
) -> bool
    decreases trees,
{
    trees.len() == 0 || (stands_at(disk, trees[0], joined(path, names[0])) && stand_below(
        disk,
        names.skip(1),
        trees.skip(1),
        path,
    ))
}

/// How a task goes on a disk that lets everything be done.
pub open spec fn outcome_on(
    disk: spec_fn(Seq<u8>) -> Option<Seq<Seq<u8>>>,
    t: TaskView,
) -> OutcomeView {
    match t {
        TaskView::Inspect(j) => OutcomeView::Kind { is_dir: disk(j.from) is Some },
        TaskView::List(j) => OutcomeView::Names {
            names: disk(j.from).unwrap(),
            complete: true,
        },
        _ => OutcomeView::Did { ok: true },
    }
}

/// What a task does to the disk.
pub open spec fn deeds_of(t: TaskView) -> Seq<Deed> {
    match t {
        TaskView::Make(j) => seq![Deed::Made(j.to)],
        TaskView::File(j) => seq![Deed::Copied(j.from, j.to)],
        _ => Seq::empty(),
    }
}

/// What the first `n` tasks do, and the tasks that are left then.
pub open spec fn run(
    disk: spec_fn(Seq<u8>) -> Option<Seq<Seq<u8>>>,
    tasks: Seq<TaskView>,
    n: nat,
) -> (Seq<Deed>, Seq<TaskView>)
    decreases n,
{
    if n == 0 || tasks.len() == 0 {
        (Seq::empty(), tasks)
    } else {
        let t = tasks.last();
        let after = run(disk, tasks_after(tasks, outcome_on(disk, t)), (n - 1) as nat);
        (deeds_of(t) + after.0, after.1)
    }
}

/// One task, then the others.
proof fn lemma_run_one(
    disk: spec_fn(Seq<u8>) -> Option<Seq<Seq<u8>>>,
    tasks: Seq<TaskView>,
    t: TaskView,
    n: nat,
)
    ensures
        run(disk, tasks.push(t), n + 1) == (
            deeds_of(t) + run(disk, tasks_after(tasks.push(t), outcome_on(disk, t)), n).0,
            run(disk, tasks_after(tasks.push(t), outcome_on(disk, t)), n).1,
        ),
        tasks.push(t).drop_last() == tasks,
        tasks.push(t).last() == t,
{
    assert(tasks.push(t).drop_last() =~= tasks);
}

proof fn lemma_run_tree(
    disk: spec_fn(Seq<u8>) -> Option<Seq<Seq<u8>>>,
    t: Tree,
    j: JobView,
    rest: Seq<TaskView>,
    n: nat,
)
    requires
        stands_at(disk, t, j.from),
    ensures
        run(disk, rest.push(TaskView::Inspect(j)), effort(t) + n) == (
            deeds(t, j) + run(disk, rest, n).0,
            run(disk, rest, n).1,
        ),
    decreases t,
{
    match t {
        Tree::File => {
            lemma_run_one(disk, rest, TaskView::Inspect(j), n + 1);
            lemma_run_one(disk, rest, TaskView::File(j), n);
            let r = run(disk, rest, n).0;
            let one = seq![Deed::Copied(j.from, j.to)];
            assert(Seq::<Deed>::empty() + (one + r) =~= one + r);
        },
        Tree::Dir { names, trees } => {
            let e = effort_below(trees);
            lemma_run_one(disk, rest, TaskView::Inspect(j), e + n + 2);
            lemma_run_one(disk, rest, TaskView::Make(j), e + n + 1);
            lemma_run_one(disk, rest, TaskView::List(j), e + n);
            lemma_run_trees(disk, names, trees, j, rest, n);
            let r = run(disk, rest, n).0;
            let made = seq![Deed::Made(j.to)];
            let inner = deeds_below(names, trees, j);
            let none = Seq::<Deed>::empty();
            assert(none + (made + (none + (inner + r))) =~= made + inner + r);
        },
    }
}

proof fn lemma_run_trees(
    disk: spec_fn(Seq<u8>) -> Option<Seq<Seq<u8>>>,
    names: Seq<Seq<u8>>,
    trees: Seq<Tree>,
    j: JobView,
    rest: Seq<TaskView>,
    n: nat,
)
    requires
        names.len() == trees.len(),
        stand_below(disk, names, trees, j.from),
    ensures
        run(disk, rest + pending(j, names), effort_below(trees) + n) == (
            deeds_below(names, trees, j) + run(disk, rest, n).0,
            run(disk, rest, n).1,
        ),
    decreases trees,
{
    let r = run(disk, rest, n).0;
    if trees.len() == 0 {
        assert(rest + pending(j, names) =~= rest);
        assert(Seq::<Deed>::empty() + r =~= r);
    } else {
        let others = rest + pending(j, names.skip(1));
        let e = effort_below(trees.skip(1));
        assert(rest + pending(j, names) =~= others.push(TaskView::Inspect(below(j, names[0]))));
        lemma_run_tree(disk, trees[0], below(j, names[0]), others, e + n);
        assert(effort(trees[0]) + (e + n) == effort_below(trees) + n);
        lemma_run_trees(disk, names.skip(1), trees.skip(1), j, rest, n);
        let first = deeds(trees[0], below(j, names[0]));
        let inner = deeds_below(names.skip(1), trees.skip(1), j);
        assert(first + (inner + r) =~= first + inner + r);
    }
}

/// A tree is copied whole: where the disk lets everything be done, every
/// directory of it is made, and every file copied, once each and to its place
/// below the target; then nothing is left to do.
pub proof fn tree_is_copied_whole(
    disk: spec_fn(Seq<u8>) -> Option<Seq<Seq<u8>>>,
    t: Tree,
    j: JobView,
)
    requires
        stands_at(disk, t, j.from),
    ensures
        run(disk, seq![TaskView::Inspect(j)], effort(t)) == (
            deeds(t, j),
            Seq::<TaskView>::empty(),
        ),
{
    let none = Seq::<TaskView>::empty();
    lemma_run_tree(disk, t, j, none, 0);
    assert(none.push(TaskView::Inspect(j)) =~= seq![TaskView::Inspect(j)]);
    assert(deeds(t, j) + Seq::<Deed>::empty() =~= deeds(t, j));
}

/// The first failure ends the copying: nothing else is done after it.
pub proof fn failure_ends_copying(tasks: Seq<TaskView>)
    requires
        tasks.len() > 0,
    ensures
        tasks_after(tasks, OutcomeView::Did { ok: false }) == seq![TaskView::Fail],
{
}

/// The job for a name in a directory keeps the name: on both sides it is the last
/// name of the path, and the directory is the parent.
pub proof fn name_is_kept_on_both_sides(j: JobView, name: Seq<u8>)
    requires
        is_plain_name(name),
    ensures
        leaf_of(below(j, name).from) == Some(name),
        leaf_of(below(j, name).to) == Some(name),
        parent_of(below(j, name).from) == Some(tidy_end(j.from)),
        parent_of(below(j, name).to) == Some(tidy_end(j.to)),
{
    joined_name_is_found_again(j.from, name);
    joined_name_is_found_again(j.to, name);
}

/// The names of a way down a tree, a slash before each.
pub open spec fn slashed(way: Seq<Seq<u8>>) -> Seq<u8>
    decreases way.len(),
{
    if way.len() == 0 {
        Seq::empty()
    } else {
        seq![0x2fu8] + way[0] + slashed(way.skip(1))
    }
}

/// The path to which a way leads from a base. A base that is empty or ends with a
/// slash takes no other.
pub open spec fn led_to(base: Seq<u8>, way: Seq<Seq<u8>>) -> Seq<u8> {
    if way.len() > 0 && (base.len() == 0 || base.last() == 0x2f) {
        base + slashed(way).skip(1)
    } else {
        base + slashed(way)
    }
}

/// Whether a way down a tree leads to a node.
pub open spec fn leads_to(t: Tree, way: Seq<Seq<u8>>, node: Tree) -> bool
    decreases way.len(),
{
    if way.len() == 0 {
        node == t
    } else {
        t matches Tree::Dir { names, trees } && exists|i: int|
            0 <= i < names.len() && i < trees.len() && names[i] == way[0] && leads_to(
                #[trigger] trees[i],
                way.skip(1),
                node,
            )
    }
}

/// Whether every name in a tree can name a file, and stands for something.
pub open spec fn is_well_named(t: Tree) -> bool
    decreases t,
{
    match t {
        Tree::File => true,
        Tree::Dir { names, trees } => names.len() == trees.len() && are_well_named(names, trees),
    }
}

/// Whether the names in a directory can name files, and so below them.
pub open spec fn are_well_named(names: Seq<Seq<u8>>, trees: Seq<Tree>) -> bool
    decreases trees,
{
    trees.len() == 0 || (is_plain_name(names[0]) && is_well_named(trees[0]) && are_well_named(
        names.skip(1),
        trees.skip(1),
    ))
}

/// How many files and directories a tree holds, itself among them.
pub open spec fn nodes(t: Tree) -> nat
    decreases t,
{
    match t {
        Tree::File => 1,
        Tree::Dir { names, trees } => 1 + nodes_below(trees),
    }
}

/// How many files and directories the trees hold.
pub open spec fn nodes_below(trees: Seq<Tree>) -> nat
    decreases trees,
{
    if trees.len() == 0 {
        0
    } else {
        nodes(trees[0]) + nodes_below(trees.skip(1))
    }
}

/// What is done for the node at the end of a way.
pub open spec fn deed_at(j: JobView, way: Seq<Seq<u8>>, node: Tree) -> Deed {
    match node {
        Tree::File => Deed::Copied(led_to(j.from, way), led_to(j.to, way)),
        Tree::Dir { .. } => Deed::Made(led_to(j.to, way)),
    }
}

/// One step down, then the rest of the way.
proof fn lemma_led_down(base: Seq<u8>, way: Seq<Seq<u8>>)
    requires
        way.len() > 0,
        is_plain_name(way[0]),
    ensures
        led_to(joined(base, way[0]), way.skip(1)) == led_to(base, way),
{
    let n = way[0];
    let rest = slashed(way.skip(1));
    let p = joined(base, n);
    assert(n[0] != 0x2f);
    assert(n[n.len() - 1] != 0x2f);
    assert(p.last() == n.last());
    let all = seq![0x2fu8] + n + rest;
    assert(slashed(way) == all);
    assert(all.skip(1) =~= n + rest);
    if base.len() == 0 || base.last() == 0x2f {
        assert(base + n + rest =~= base + (n + rest));
    } else {
        assert(base.push(0x2f) + n + rest =~= base + all);
    }
}

proof fn lemma_led_nowhere(base: Seq<u8>)
    ensures
        led_to(base, Seq::empty()) == base,
{
    assert(base + slashed(Seq::empty()) =~= base);
}

/// Everything in a tree is copied, or made, to the same way below the target as it
/// stands below the source.
pub proof fn every_node_is_copied(t: Tree, j: JobView, way: Seq<Seq<u8>>, node: Tree)
    requires
        is_well_named(t),
        leads_to(t, way, node),
    ensures
        deeds(t, j).contains(deed_at(j, way, node)),
    decreases t,
{
    if way.len() == 0 {
        assert(way =~= Seq::empty());
        lemma_led_nowhere(j.from);
        lemma_led_nowhere(j.to);
        assert(deeds(t, j)[0] == deed_at(j, way, node));
    } else {
        match t {
            Tree::File => {},
            Tree::Dir { names, trees } => {
                let i = choose|i: int|
                    0 <= i < names.len() && i < trees.len() && names[i] == way[0] && leads_to(
                        #[trigger] trees[i],
                        way.skip(1),
                        node,
                    );
                lemma_node_below_is_copied(names, trees, j, i, way, node);
                let inner = deeds_below(names, trees, j);
                let k = choose|k: int| 0 <= k < inner.len() && inner[k] == deed_at(j, way, node);
                assert(deeds(t, j)[k + 1] == inner[k]);
            },
        }
    }
}

proof fn lemma_node_below_is_copied(
    names: Seq<Seq<u8>>,
    trees: Seq<Tree>,
    j: JobView,
    i: int,
    way: Seq<Seq<u8>>,
    node: Tree,
)
    requires
        names.len() == trees.len(),
        are_well_named(names, trees),
        0 <= i < trees.len(),
        way.len() > 0,
        names[i] == way[0],
        leads_to(trees[i], way.skip(1), node),
    ensures
        deeds_below(names, trees, j).contains(deed_at(j, way, node)),
    decreases trees,
{
    let first = deeds(trees[0], below(j, names[0]));
    let rest = deeds_below(names.skip(1), trees.skip(1), j);
    let all = deeds_below(names, trees, j);
    if i == 0 {
        every_node_is_copied(trees[0], below(j, names[0]), way.skip(1), node);
        lemma_led_down(j.from, way);
        lemma_led_down(j.to, way);
        let k = choose|k: int| 0 <= k < first.len() && first[k] == deed_at(j, way, node);
        assert(all[k] == first[k]);
    } else {
        assert(trees.skip(1)[i - 1] == trees[i]);
        assert(names.skip(1)[i - 1] == names[i]);
        lemma_node_below_is_copied(names.skip(1), trees.skip(1), j, i - 1, way, node);
        let k = choose|k: int| 0 <= k < rest.len() && rest[k] == deed_at(j, way, node);
        assert(all[first.len() + k] == rest[k]);
    }
}

/// Whether a deed is that for some node of a tree.
pub open spec fn is_called_for(t: Tree, j: JobView, d: Deed) -> bool {
    exists|way: Seq<Seq<u8>>, node: Tree| #[trigger]
        leads_to(t, way, node) && d == deed_at(j, way, node)
}

/// Nothing else is done than to copy, or make, what the tree holds, each thing
/// once: there are as many deeds as nodes.
pub proof fn nothing_else_is_copied(t: Tree, j: JobView, k: int)
    requires
        is_well_named(t),
        0 <= k < deeds(t, j).len(),
    ensures
        is_called_for(t, j, deeds(t, j)[k]),
        deeds(t, j).len() == nodes(t),
    decreases t,
{
    lemma_as_many_deeds(t, j);
    let none = Seq::<Seq<u8>>::empty();
    lemma_led_nowhere(j.from);
    lemma_led_nowhere(j.to);
    assert(leads_to(t, none, t));
    match t {
        Tree::File => {},
        Tree::Dir { names, trees } => {
            let inner = deeds_below(names, trees, j);
            if k > 0 {
                assert(deeds(t, j)[k] == inner[k - 1]);
                let (i, way, node) = lemma_deed_below(names, trees, j, k - 1);
                assert(leads_to(trees[i], way.skip(1), node));
                assert(leads_to(t, way, node));
            }
        },
    }
}

proof fn lemma_deed_below(names: Seq<Seq<u8>>, trees: Seq<Tree>, j: JobView, k: int) -> (r: (
    int,
    Seq<Seq<u8>>,
    Tree,
))
    requires
        names.len() == trees.len(),
        are_well_named(names, trees),
        0 <= k < deeds_below(names, trees, j).len(),
    ensures
        0 <= r.0 < trees.len(),
        r.1.len() > 0,
        r.1[0] == names[r.0],
        leads_to(trees[r.0], r.1.skip(1), r.2),
        deeds_below(names, trees, j)[k] == deed_at(j, r.1, r.2),
    decreases trees,
{
    let first = deeds(trees[0], below(j, names[0]));
    let rest = deeds_below(names.skip(1), trees.skip(1), j);
    let all = deeds_below(names, trees, j);
    if k < first.len() {
        nothing_else_is_copied(trees[0], below(j, names[0]), k);
        let (way, node) = choose|way: Seq<Seq<u8>>, node: Tree| #[trigger]
            leads_to(trees[0], way, node) && first[k] == deed_at(below(j, names[0]), way, node);
        let whole = seq![names[0]] + way;
        assert(whole.skip(1) =~= way);
        lemma_led_down(j.from, whole);
        lemma_led_down(j.to, whole);
        assert(all[k] == first[k]);
        (0, whole, node)
    } else {
        let (i, way, node) = lemma_deed_below(
            names.skip(1),
            trees.skip(1),
            j,
            k - first.len(),
        );
        assert(all[k] == rest[k - first.len()]);
        assert(trees.skip(1)[i] == trees[i + 1]);
        (i + 1, way, node)
    }
}

proof fn lemma_as_many_deeds(t: Tree, j: JobView)
    ensures
        deeds(t, j).len() == nodes(t),
    decreases t,
{
    match t {
        Tree::File => {},
        Tree::Dir { names, trees } => {
            lemma_as_many_deeds_below(names, trees, j);
        },
    }
}

proof fn lemma_as_many_deeds_below(names: Seq<Seq<u8>>, trees: Seq<Tree>, j: JobView)
    ensures
        deeds_below(names, trees, j).len() == nodes_below(trees),
    decreases trees,
{
    if trees.len() > 0 {
        lemma_as_many_deeds(trees[0], below(j, names[0]));
        lemma_as_many_deeds_below(names.skip(1), trees.skip(1), j);
    }
}

/// What is copied stands at the same place relative to the target as it stood
/// relative to the source: behind both bases follow the same bytes.
pub proof fn copy_has_the_same_relative_path(t: Tree, j: JobView, k: int) -> (rest: Seq<u8>)
    requires
        is_well_named(t),
        0 <= k < deeds(t, j).len(),
        j.from.len() > 0 && j.from.last() != 0x2f,
        j.to.len() > 0 && j.to.last() != 0x2f,
    ensures
        match deeds(t, j)[k] {
            Deed::Copied(a, b) => a == j.from + rest && b == j.to + rest,
            Deed::Made(b) => b == j.to + rest,
        },
        rest.len() > 0 ==> rest[0] == 0x2f,
{
    nothing_else_is_copied(t, j, k);
    let (way, node) = choose|way: Seq<Seq<u8>>, node: Tree| #[trigger]
        leads_to(t, way, node) && deeds(t, j)[k] == deed_at(j, way, node);
    slashed(way)
}

/// A directory is made before anything is done in it.
pub proof fn directory_is_made_first(names: Seq<Seq<u8>>, trees: Seq<Tree>, j: JobView)
    ensures
        deeds(Tree::Dir { names, trees }, j).len() > 0,
        deeds(Tree::Dir { names, trees }, j)[0] == Deed::Made(j.to),
{
}

/// Every name that was read in a directory is looked at next, in the order in
/// which they were read, and what else was to be done is kept. If a name could not
/// be read, a failure follows them.
pub proof fn every_name_is_looked_at(
    tasks: Seq<TaskView>,
    j: JobView,
    names: Seq<Seq<u8>>,
    complete: bool,
    i: int,
)
    requires
        tasks.len() > 0,
        tasks.last() == TaskView::List(j),
        0 <= i < names.len(),
        is_plain_name(names[i]),
    ensures
        ({
            let after = tasks_after(tasks, OutcomeView::Names { names, complete });
            let kept = tasks.len() - 1 + (if complete {
                0int
            } else {
                1int
            });
            &&& after.len() == kept + names.len()
            &&& after[after.len() - 1 - i] == TaskView::Inspect(
                JobView { from: led_to(j.from, seq![names[i]]), to: led_to(j.to, seq![names[i]]) },
            )
            &&& forall|k: int| 0 <= k < tasks.len() - 1 ==> after[k] == tasks[k]
            &&& !complete ==> after[tasks.len() - 1] == TaskView::Fail
        }),
{
    lemma_pending_at(j, names, i);
    let one = seq![names[i]];
    lemma_led_down(j.from, one);
    lemma_led_down(j.to, one);
    assert(one.skip(1) =~= Seq::empty());
    lemma_led_nowhere(joined(j.from, names[i]));
    lemma_led_nowhere(joined(j.to, names[i]));
}

proof fn lemma_pending_at(j: JobView, names: Seq<Seq<u8>>, i: int)
    requires
        0 <= i < names.len(),
    ensures
        pending(j, names).len() == names.len(),
        pending(j, names)[names.len() - 1 - i] == TaskView::Inspect(below(j, names[i])),
    decreases names.len(),
{
    if i > 0 {
        lemma_pending_at(j, names.skip(1), i - 1);
    } else if names.len() > 1 {
        lemma_pending_at(j, names.skip(1), 0);
    } else {
        assert(pending(j, names.skip(1)).len() == 0);
    }
}

/// A failure that is to be reported is not forgotten: whatever is done before it,
/// it stays.
pub proof fn failure_is_not_forgotten(tasks: Seq<TaskView>, e: OutcomeView)
    requires
        tasks.contains(TaskView::Fail),
        is_outcome_of(tasks.last(), e),
    ensures
        tasks_after(tasks, e).contains(TaskView::Fail),
{
    let k = choose|k: int| 0 <= k < tasks.len() && tasks[k] == TaskView::Fail;
    assert(k < tasks.len() - 1);
    let after = tasks_after(tasks, e);
    if after == seq![TaskView::Fail] {
        assert(after[0] == TaskView::Fail);
    } else {
        assert(after[k] == TaskView::Fail);
    }
}

/// A file is copied, and a directory made and read, at the paths of the task that
/// found out what it is.
pub proof fn paths_stay_while_a_job_is_done(tasks: Seq<TaskView>, j: JobView)
    ensures
        tasks_after(tasks.push(TaskView::Inspect(j)), OutcomeView::Kind { is_dir: false })
            == tasks.push(TaskView::File(j)),
        tasks_after(tasks.push(TaskView::Inspect(j)), OutcomeView::Kind { is_dir: true })
            == tasks.push(TaskView::Make(j)),
        tasks_after(tasks.push(TaskView::Make(j)), OutcomeView::Did { ok: true }) == tasks.push(
            TaskView::List(j),
        ),
        tasks_after(tasks.push(TaskView::File(j)), OutcomeView::Did { ok: true }) == tasks,
{
    assert(tasks.push(TaskView::Inspect(j)).drop_last() =~= tasks);
    assert(tasks.push(TaskView::Make(j)).drop_last() =~= tasks);
    assert(tasks.push(TaskView::File(j)).drop_last() =~= tasks);
}

/// Each task has its own kind of outcome: a listing gives names, or could not be read;
/// nothing comes of a failure.
pub proof fn tasks_have_their_outcomes(j: JobView, e: OutcomeView)
    ensures
        is_outcome_of(TaskView::Inspect(j), e) <==> e is Kind,
        is_outcome_of(TaskView::Make(j), e) <==> e is Did,
        is_outcome_of(TaskView::File(j), e) <==> e is Did,
        is_outcome_of(TaskView::List(j), e) <==> e is Names || (e matches OutcomeView::Did { ok }
            && !ok),
        !is_outcome_of(TaskView::Fail, e),
{
}

} // verus!
