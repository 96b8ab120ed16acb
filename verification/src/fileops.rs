//! Work on files: what is asked, and what is to be done for an answer.
//!
//! Only local panes take part; for a remote one there is a notice.

use vstd::prelude::*;
use vstd::utf8::{encode_utf8, valid_utf8};

use crate::entry::EntryView;
use crate::listing::ListingView;
use crate::num::{decimal, push_decimal};
use crate::pane::{LocalPane, LocalView, Pane, PaneView};
use crate::path::{
    bytes_view, different_names_have_different_paths, is_plain_name, join_name, joined,
    joined_name_is_found_again, leaf_of, named, parent_of, text_view, tidy_end, SLASH,
};
use crate::scan::{byte_texts, texts};
use crate::text::{
    ascii_lower, bytes_of, chain, is_ascii, lemma_ascii_bytes, lemma_shown_is_encoded, lower_char,
    lowercase, shown, shown_text, text_eq,
};

verus! {

/// What comes of a command at first.
pub enum Plan {
    /// Nothing.
    Nothing,
    /// The user is told this.
    Notice(String),
    /// The user is asked this, with an answer to start from.
    Ask(String, String),
}

/// The content of a plan.
#[verifier::ext_equal]
pub enum PlanView {
    Nothing,
    Notice(Seq<char>),
    Ask(Seq<char>, Seq<char>),
}

impl View for Plan {
    type V = PlanView;

    open spec fn view(&self) -> PlanView {
        match self {
            Plan::Nothing => PlanView::Nothing,
            Plan::Notice(s) => PlanView::Notice(s@),
            Plan::Ask(label, default) => PlanView::Ask(label@, default@),
        }
    }
}

/// One file or directory that goes from a path to another.
pub struct Transfer {
    pub from: Vec<u8>,
    pub to: Vec<u8>,
}

/// The content of a transfer.
#[verifier::ext_equal]
pub struct TransferView {
    pub from: Seq<u8>,
    pub to: Seq<u8>,
}

impl View for Transfer {
    type V = TransferView;

    open spec fn view(&self) -> TransferView {
        TransferView { from: self.from@, to: self.to@ }
    }
}

/// The contents of some transfers.
pub open spec fn transfer_views(v: Seq<Transfer>) -> Seq<TransferView> {
    v.map_values(|t: Transfer| t@)
}

/// The names to work on: the selected ones, or else the one under the cursor. The
/// way up is never among them.
pub open spec fn working_names(list: ListingView) -> Seq<Seq<char>> {
    if list.selected != Set::<usize>::empty() {
        list.selected_names()
    } else {
        match list.current() {
            Some(e) => if e.name == ".."@ {
                Seq::empty()
            } else {
                seq![e.name]
            },
            None => Seq::empty(),
        }
    }
}

/// The names to work on.
fn names_to_work_on(p: &Pane) -> (r: Vec<String>)
    ensures
        texts(r@) == working_names(p@.list()),
{
    if p.has_selection() {
        return p.selected_names();
    }
    let mut r: Vec<String> = Vec::new();
    assert(texts(r@) =~= Seq::empty());
    match p.current() {
        Some(e) => {
            if !text_eq(e.name.as_str(), "..") {
                let name = e.name.clone();
                let ghost n = name@;
                r.push(name);
                assert(texts(r@) =~= seq![n]);
            }
        },
        None => {},
    }
    r
}

/// What is shown when an operation fails.
pub fn error_text(e: &str) -> (r: String)
    ensures
        r@ == " Error: "@ + e@,
{
    chain(" Error: ", e)
}

/// What renaming asks.
pub open spec fn rename_plan(p: PaneView) -> PlanView {
    match p {
        PaneView::Remote(_) => PlanView::Notice(" Remote rename not supported"@),
        PaneView::Local(l) => match l.list.current() {
            Some(e) => if e.name == ".."@ {
                PlanView::Nothing
            } else {
                PlanView::Ask("Rename to"@, e.name)
            },
            None => PlanView::Nothing,
        },
    }
}

/// What an answer to renaming does: the entry under the cursor gets the new name.
/// Nothing without a name, or with the same.
pub open spec fn rename_transfer(p: PaneView, answer: Option<Seq<char>>) -> Option<TransferView> {
    match (p, answer) {
        (PaneView::Local(l), Some(new)) => match l.list.current() {
            Some(e) => if e.name == ".."@ || new.len() == 0 || new == e.name {
                None
            } else {
                Some(TransferView { from: named(l.path, e.name), to: named(l.path, new) })
            },
            None => None,
        },
        _ => None,
    }
}

/// The content of an optional transfer.
pub open spec fn one_view(t: Option<Transfer>) -> Option<TransferView> {
    match t {
        Some(t) => Some(t@),
        None => None,
    }
}

/// Starts renaming.
pub fn op_rename(p: &Pane) -> (r: Plan)
    ensures
        r@ == rename_plan(p@),
{
    if p.is_remote() {
        return Plan::Notice(" Remote rename not supported".to_string());
    }
    match p.current() {
        Some(e) => {
            if text_eq(e.name.as_str(), "..") {
                Plan::Nothing
            } else {
                Plan::Ask("Rename to".to_string(), e.name.clone())
            }
        },
        None => Plan::Nothing,
    }
}

/// Takes the answer to renaming. If there is something to rename, the pane is to
/// be read again, whether or not that succeeds.
pub fn rename_answer(p: &Pane, answer: &Option<String>) -> (r: Option<Transfer>)
    ensures
        one_view(r) == rename_transfer(p@, text_view(*answer)),
{
    match (p, answer) {
        (Pane::Local(l), Some(new)) => match l.list.current() {
            Some(e) => {
                if text_eq(e.name.as_str(), "..") || new.as_str().is_empty() || text_eq(
                    new.as_str(),
                    e.name.as_str(),
                ) {
                    None
                } else {
                    Some(
                        Transfer {
                            from: join_name(l.path.as_slice(), e.name.as_str()),
                            to: join_name(l.path.as_slice(), new.as_str()),
                        },
                    )
                }
            },
            None => None,
        },
        _ => None,
    }
}

/// What copying or moving asks: where to. One name goes to a path of its own,
/// which starts as that name in the other pane; several go into a directory,
/// which starts as that of the other pane.
pub open spec fn transfer_plan(
    src: PaneView,
    dst: PaneView,
    label: Seq<char>,
    notice: Seq<char>,
) -> PlanView {
    match (src, dst) {
        (PaneView::Local(s), PaneView::Local(d)) => {
            let names = working_names(s.list);
            if names.len() == 0 {
                PlanView::Nothing
            } else if names.len() == 1 {
                PlanView::Ask(label, shown_text(named(d.path, names[0])))
            } else {
                PlanView::Ask(label, shown_text(d.path))
            }
        },
        _ => PlanView::Notice(notice),
    }
}

/// Where each name goes.
pub open spec fn transfers(names: Seq<Seq<char>>, dir: Seq<u8>, target: Seq<char>) -> Seq<
    TransferView,
> {
    Seq::new(
        names.len(),
        |i: int|
            TransferView {
                from: named(dir, names[i]),
                to: if names.len() == 1 {
                    encode_utf8(target)
                } else {
                    named(encode_utf8(target), names[i])
                },
            },
    )
}

/// What an answer to copying or moving does; nothing without a target.
pub open spec fn transfers_for(src: PaneView, dst: PaneView, answer: Option<Seq<char>>) -> Option<
    Seq<TransferView>,
> {
    match (src, dst, answer) {
        (PaneView::Local(s), PaneView::Local(_), Some(target)) => {
            let names = working_names(s.list);
            if names.len() == 0 || target.len() == 0 {
                None
            } else {
                Some(transfers(names, s.path, target))
            }
        },
        _ => None,
    }
}

/// The content of optional transfers.
pub open spec fn many_view(t: Option<Vec<Transfer>>) -> Option<Seq<TransferView>> {
    match t {
        Some(t) => Some(transfer_views(t@)),
        None => None,
    }
}

/// Starts copying or moving.
fn start_transfer(src: &Pane, dst: &Pane, label: &str, notice: &str) -> (r: Plan)
    ensures
        r@ == transfer_plan(src@, dst@, label@, notice@),
{
    match (src, dst) {
        (Pane::Local(_), Pane::Local(d)) => {
            let names = names_to_work_on(src);
            if names.len() == 0 {
                Plan::Nothing
            } else if names.len() == 1 {
                assert(texts(names@)[0] == names@[0]@);
                Plan::Ask(
                    label.to_string(),
                    shown(join_name(d.path.as_slice(), names[0].as_str()).as_slice()),
                )
            } else {
                Plan::Ask(label.to_string(), shown(d.path.as_slice()))
            }
        },
        _ => Plan::Notice(notice.to_string()),
    }
}

/// Starts copying.
pub fn op_copy(src: &Pane, dst: &Pane) -> (r: Plan)
    ensures
        r@ == transfer_plan(src@, dst@, "Copy to"@, " Remote copy not supported"@),
{
    start_transfer(src, dst, "Copy to", " Remote copy not supported")
}

/// Starts moving.
pub fn op_move(src: &Pane, dst: &Pane) -> (r: Plan)
    ensures
        r@ == transfer_plan(src@, dst@, "Move to"@, " Remote move not supported"@),
{
    start_transfer(src, dst, "Move to", " Remote move not supported")
}

/// Takes the answer to copying or moving. If there is something to do, both panes
/// are to be read again, whether or not it succeeds.
pub fn transfer_answer(src: &Pane, dst: &Pane, answer: &Option<String>) -> (r: Option<
    Vec<Transfer>,
>)
    ensures
        many_view(r) == transfers_for(src@, dst@, text_view(*answer)),
{
    match (src, dst, answer) {
        (Pane::Local(s), Pane::Local(_), Some(target)) => {
            let names = names_to_work_on(src);
            let n = names.len();
            if n == 0 || target.as_str().is_empty() {
                return None;
            }
            let ghost ns = texts(names@);
            let ghost want = transfers(ns, s.path@, target@);
            let mut r: Vec<Transfer> = Vec::new();
            for i in 0..n
                invariant
                    n == names@.len(),
                    ns == texts(names@),
                    want == transfers(ns, s.path@, target@),
                    r@.len() == i,
                    forall|j: int| 0 <= j < i ==> (#[trigger] r@[j])@ == want[j],
            {
                assert(ns[i as int] == names@[i as int]@);
                let to = if n == 1 {
                    bytes_of(target.as_str())
                } else {
                    join_name(target.as_str().as_bytes(), names[i].as_str())
                };
                r.push(
                    Transfer { from: join_name(s.path.as_slice(), names[i].as_str()), to },
                );
            }
            assert(transfer_views(r@) =~= want);
            Some(r)
        },
        _ => None,
    }
}

/// How far the moving of one thing has come.
#[derive(Clone, Copy, Debug, PartialEq, Eq, Structural)]
pub enum MoveStage {
    /// It is being renamed.
    Rename,
    /// It is being copied.
    Copy,
    /// The source is being removed.
    Remove,
}

/// What follows a stage.
#[derive(Clone, Copy, Debug, PartialEq, Eq, Structural)]
pub enum MoveStep {
    /// This stage.
    Go(MoveStage),
    /// It is moved.
    Done,
    /// It is not; the user is told why the last stage failed.
    Fail,
}

/// What follows a stage that succeeded or failed. What cannot be renamed is
/// copied, and its source is removed only after that.
pub open spec fn move_next(stage: MoveStage, ok: bool) -> MoveStep {
    match stage {
        MoveStage::Rename => if ok {
            MoveStep::Done
        } else {
            MoveStep::Go(MoveStage::Copy)
        },
        MoveStage::Copy => if ok {
            MoveStep::Go(MoveStage::Remove)
        } else {
            MoveStep::Fail
        },
        MoveStage::Remove => if ok {
            MoveStep::Done
        } else {
            MoveStep::Fail
        },
    }
}

/// Takes how a stage of moving went.
pub fn move_step(stage: MoveStage, ok: bool) -> (r: MoveStep)
    ensures
        r == move_next(stage, ok),
{
    match stage {
        MoveStage::Rename => if ok {
            MoveStep::Done
        } else {
            MoveStep::Go(MoveStage::Copy)
        },
        MoveStage::Copy => if ok {
            MoveStep::Go(MoveStage::Remove)
        } else {
            MoveStep::Fail
        },
        MoveStage::Remove => if ok {
            MoveStep::Done
        } else {
            MoveStep::Fail
        },
    }
}

/// The question before names are deleted.
pub open spec fn delete_label(names: Seq<Seq<char>>) -> Seq<char> {
    "Delete "@ + (if names.len() == 1 {
        seq!['\''] + names[0] + seq!['\'']
    } else {
        decimal(names.len()) + " items"@
    }) + "? [y/N]"@
}

/// What deleting asks.
pub open spec fn delete_plan(p: PaneView) -> PlanView {
    match p {
        PaneView::Remote(_) => PlanView::Notice(" Remote delete not supported"@),
        PaneView::Local(l) => {
            let names = working_names(l.list);
            if names.len() == 0 {
                PlanView::Nothing
            } else {
                PlanView::Ask(delete_label(names), Seq::empty())
            }
        },
    }
}

/// The paths of names in a directory.
pub open spec fn paths_of(dir: Seq<u8>, names: Seq<Seq<char>>) -> Seq<Seq<u8>> {
    names.map_values(|n: Seq<char>| named(dir, n))
}

/// What is deleted for an answer, given in lower case: everything for `y`, else
/// nothing.
pub open spec fn deleted_for(p: PaneView, lower: Seq<char>) -> Option<Seq<Seq<u8>>> {
    match p {
        PaneView::Local(l) => {
            let names = working_names(l.list);
            if names.len() == 0 || lower != "y"@ {
                None
            } else {
                Some(paths_of(l.path, names))
            }
        },
        PaneView::Remote(_) => None,
    }
}

/// The contents of optional paths.
pub open spec fn paths_view(t: Option<Vec<Vec<u8>>>) -> Option<Seq<Seq<u8>>> {
    match t {
        Some(t) => Some(byte_texts(t@)),
        None => None,
    }
}

/// Starts deleting.
pub fn op_delete(p: &Pane) -> (r: Plan)
    ensures
        r@ == delete_plan(p@),
{
    if p.is_remote() {
        return Plan::Notice(" Remote delete not supported".to_string());
    }
    let names = names_to_work_on(p);
    if names.len() == 0 {
        return Plan::Nothing;
    }
    let ghost ns = texts(names@);
    let mut what = String::new();
    if names.len() == 1 {
        what.push('\'');
        what.push_str(names[0].as_str());
        what.push('\'');
        assert(ns[0] == names@[0]@);
        assert(what@ =~= seq!['\''] + ns[0] + seq!['\'']);
    } else {
        push_decimal(&mut what, names.len() as u64);
        assert(what@ =~= decimal(ns.len()));
        what.push_str(" items");
    }
    let mut label = String::new();
    label.push_str("Delete ");
    assert(label@ =~= "Delete "@);
    label.push_str(what.as_str());
    label.push_str("? [y/N]");
    Plan::Ask(label, String::new())
}

/// Takes the answer to deleting, in lower case.
pub fn confirmed_delete(p: &Pane, lower: &str) -> (r: Option<Vec<Vec<u8>>>)
    ensures
        paths_view(r) == deleted_for(p@, lower@),
{
    match p {
        Pane::Local(l) => {
            let names = names_to_work_on(p);
            if names.len() == 0 || !text_eq(lower, "y") {
                return None;
            }
            let ghost ns = texts(names@);
            let ghost want = paths_of(l.path@, ns);
            let mut r: Vec<Vec<u8>> = Vec::new();
            for i in 0..names.len()
                invariant
                    ns == texts(names@),
                    want == paths_of(l.path@, ns),
                    r@.len() == i,
                    forall|j: int| 0 <= j < i ==> (#[trigger] r@[j])@ == want[j],
            {
                assert(ns[i as int] == names@[i as int]@);
                r.push(join_name(l.path.as_slice(), names[i].as_str()));
            }
            assert(byte_texts(r@) =~= want);
            Some(r)
        },
        Pane::Remote(_) => None,
    }
}

/// Takes the answer to deleting. If there is something to delete, the pane is to
/// be read again, whether or not that succeeds.
pub fn delete_answer(p: &Pane, answer: &Option<String>) -> (r: Option<Vec<Vec<u8>>>)
    ensures
        paths_view(r) == (match *answer {
            Some(a) => deleted_for(p@, lowercase(a@)),
            None => None,
        }),
{
    match answer {
        Some(a) => confirmed_delete(p, a.as_str().to_lowercase().as_str()),
        None => None,
    }
}

/// What making a directory asks.
pub open spec fn mkdir_plan(p: PaneView) -> PlanView {
    match p {
        PaneView::Remote(_) => PlanView::Notice(" Remote mkdir not supported"@),
        PaneView::Local(_) => PlanView::Ask("New directory"@, Seq::empty()),
    }
}

/// The directory that is made for an answer; none without a name.
pub open spec fn made_directory(p: PaneView, answer: Option<Seq<char>>) -> Option<Seq<u8>> {
    match (p, answer) {
        (PaneView::Local(l), Some(name)) => if name.len() == 0 {
            None
        } else {
            Some(named(l.path, name))
        },
        _ => None,
    }
}

/// Starts making a directory.
pub fn op_mkdir(p: &Pane) -> (r: Plan)
    ensures
        r@ == mkdir_plan(p@),
{
    if p.is_remote() {
        Plan::Notice(" Remote mkdir not supported".to_string())
    } else {
        Plan::Ask("New directory".to_string(), String::new())
    }
}

/// Takes the answer to making a directory. If there is one to make, the pane is
/// to be read again, whether or not that succeeds.
pub fn mkdir_answer(p: &Pane, answer: &Option<String>) -> (r: Option<Vec<u8>>)
    ensures
        bytes_view(r) == made_directory(p@, text_view(*answer)),
{
    match (p, answer) {
        (Pane::Local(l), Some(name)) => {
            if name.as_str().is_empty() {
                None
            } else {
                Some(join_name(l.path.as_slice(), name.as_str()))
            }
        },
        _ => None,
    }
}

/// What going to a path asks.
pub open spec fn goto_plan(p: PaneView) -> PlanView {
    match p {
        PaneView::Remote(_) => PlanView::Notice(" Use ← → to navigate remote pane"@),
        PaneView::Local(l) => PlanView::Ask("Go to"@, shown_text(l.path)),
    }
}

/// Starts going to a path.
pub fn op_goto(p: &Pane) -> (r: Plan)
    ensures
        r@ == goto_plan(p@),
{
    match p {
        Pane::Remote(_) => Plan::Notice(" Use ← → to navigate remote pane".to_string()),
        Pane::Local(l) => Plan::Ask("Go to".to_string(), shown(l.path.as_slice())),
    }
}

/// The path to go to by an answer; none without one.
pub fn goto_answer(answer: &Option<String>) -> (r: Option<String>)
    ensures
        text_view(r) == (match *answer {
            Some(a) => if a@.len() == 0 {
                None
            } else {
                Some(a@)
            },
            None => None,
        }),
{
    match answer {
        Some(a) => {
            if a.as_str().is_empty() {
                None
            } else {
                Some(a.clone())
            }
        },
        None => None,
    }
}

/// What a path leads to, given whether it is a directory, and its canonical form
/// if it has one. Nothing is said of a directory: its listing is to be read.
pub open spec fn gone_to(
    v: LocalView,
    target: Seq<char>,
    is_dir: bool,
    canonical: Option<Seq<u8>>,
) -> (LocalView, Option<Seq<char>>) {
    if is_dir {
        (
            v.at_path(
                match canonical {
                    Some(c) => c,
                    None => encode_utf8(target),
                },
            ),
            None,
        )
    } else {
        (v, Some(" Not a directory: "@ + target))
    }
}

/// Goes to a path. If it is a directory, its listing is then to be read; if not,
/// the user is told.
pub fn go_to_target(
    lp: &mut LocalPane,
    target: String,
    is_dir: bool,
    canonical: Option<Vec<u8>>,
) -> (r: Option<String>)
    ensures
        (final(lp)@, text_view(r)) == gone_to(old(lp)@, target@, is_dir, bytes_view(canonical)),
{
    if is_dir {
        match canonical {
            Some(c) => {
                lp.go_to(c);
            },
            None => {
                lp.go_to(bytes_of(target.as_str()));
            },
        }
        None
    } else {
        Some(chain(" Not a directory: ", target.as_str()))
    }
}

/// A program to start on a file.
pub struct Launch {
    pub program: String,
    pub path: String,
}

/// The file that is opened: the one under the cursor of a local pane.
pub open spec fn opened_file(p: PaneView) -> Option<Seq<char>> {
    match p {
        PaneView::Local(l) => match l.list.current() {
            Some(e) => if e.is_dir {
                None
            } else {
                Some(shown_text(named(l.path, e.name)))
            },
            None => None,
        },
        PaneView::Remote(_) => None,
    }
}

/// The program and the file.
pub open spec fn launch_view(l: Option<Launch>) -> Option<(Seq<char>, Seq<char>)> {
    match l {
        Some(l) => Some((l.program@, l.path@)),
        None => None,
    }
}

/// What is started: the program that the environment names, or else `default`.
pub open spec fn launch_of(
    p: PaneView,
    named: Option<Seq<char>>,
    default: Seq<char>,
) -> Option<(Seq<char>, Seq<char>)> {
    match opened_file(p) {
        Some(path) => Some(
            (
                match named {
                    Some(prog) => prog,
                    None => default,
                },
                path,
            ),
        ),
        None => None,
    }
}

/// Opens the file under the cursor.
fn open_with(p: &Pane, named: &Option<String>, default: &str) -> (r: Option<Launch>)
    ensures
        launch_view(r) == launch_of(p@, text_view(*named), default@),
{
    match p {
        Pane::Local(l) => match l.list.current() {
            Some(e) => {
                if e.is_dir {
                    return None;
                }
                let program = match named {
                    Some(prog) => prog.clone(),
                    None => default.to_string(),
                };
                let path = join_name(l.path.as_slice(), e.name.as_str());
                Some(Launch { program, path: shown(path.as_slice()) })
            },
            None => None,
        },
        Pane::Remote(_) => None,
    }
}

/// Views the file under the cursor with the pager.
pub fn op_view(p: &Pane, pager: &Option<String>) -> (r: Option<Launch>)
    ensures
        launch_view(r) == launch_of(p@, text_view(*pager), "less"@),
{
    open_with(p, pager, "less")
}

/// Edits the file under the cursor with the editor.
pub fn op_edit(p: &Pane, editor: &Option<String>) -> (r: Option<Launch>)
    ensures
        launch_view(r) == launch_of(p@, text_view(*editor), "vi"@),
{
    open_with(p, editor, "vi")
}

/// The way up is never worked on.
pub proof fn way_up_is_never_worked_on(list: ListingView, i: int)
    requires
        0 <= i < working_names(list).len(),
    ensures
        working_names(list)[i] != ".."@,
{
    if list.selected != Set::<usize>::empty() {
        crate::listing::way_up_is_never_selected(list, list.entries.len() as int, i);
    }
}

/// Whoever accepts the target that is proposed copies, or moves, each name into
/// the directory of the other pane, under the name that it has. A path that is not
/// UTF-8 cannot be proposed as it is.
pub proof fn proposed_target_keeps_names(
    s: LocalView,
    d: LocalView,
    label: Seq<char>,
    notice: Seq<char>,
    i: int,
)
    requires
        0 <= i < working_names(s.list).len(),
        valid_utf8(d.path),
        d.path.len() > 0 || (working_names(s.list).len() == 1 && working_names(s.list)[0].len()
            > 0),
    ensures
        ({
            let src = PaneView::Local(s);
            let dst = PaneView::Local(d);
            let names = working_names(s.list);
            &&& transfer_plan(src, dst, label, notice) is Ask
            &&& transfers_for(
                src,
                dst,
                Some(transfer_plan(src, dst, label, notice)->Ask_1),
            ) matches Some(t) && t.len() == names.len() && t[i] == (TransferView {
                from: named(s.path, names[i]),
                to: named(d.path, names[i]),
            })
        }),
{
    broadcast use vstd::utf8::encode_utf8_valid_utf8;

    let names = working_names(s.list);
    if names.len() == 1 {
        lemma_named_is_text(d.path, names[0]);
        lemma_shown_is_encoded(named(d.path, names[0]));
    } else {
        lemma_shown_is_encoded(d.path);
    }
}

/// A text below a path that is UTF-8 is UTF-8.
proof fn lemma_named_is_text(dir: Seq<u8>, name: Seq<char>)
    requires
        valid_utf8(dir),
    ensures
        valid_utf8(named(dir, name)),
{
    broadcast use vstd::utf8::encode_utf8_valid_utf8;

    let slash = seq!['/'];
    lemma_ascii_bytes(slash);
    assert(encode_utf8(slash) =~= seq![SLASH]);
    vstd::utf8::valid_utf8_concat(dir, encode_utf8(slash));
    vstd::utf8::valid_utf8_concat(dir, encode_utf8(name));
    assert(dir.push(SLASH) =~= dir + encode_utf8(slash));
    vstd::utf8::valid_utf8_concat(dir.push(SLASH), encode_utf8(name));
}

/// Where several names go into a directory, each is found there again under its
/// own name.
pub proof fn several_names_go_into_the_target(
    names: Seq<Seq<char>>,
    dir: Seq<u8>,
    target: Seq<char>,
    i: int,
)
    requires
        names.len() > 1,
        0 <= i < names.len(),
        is_plain_name(encode_utf8(names[i])),
        tidy_end(encode_utf8(target)) == encode_utf8(target),
    ensures
        leaf_of(transfers(names, dir, target)[i].to) == Some(encode_utf8(names[i])),
        parent_of(transfers(names, dir, target)[i].to) == Some(encode_utf8(target)),
{
    joined_name_is_found_again(encode_utf8(target), encode_utf8(names[i]));
}

/// A source is removed only when a copy of it has been made, and it ends with
/// a success or with the failure of the last stage.
pub proof fn source_is_removed_after_copying(stage: MoveStage, ok: bool)
    ensures
        move_next(stage, ok) == MoveStep::Go(MoveStage::Remove) ==> stage == MoveStage::Copy && ok,
        move_next(stage, ok) == MoveStep::Fail ==> !ok,
        move_next(stage, ok) == MoveStep::Done ==> ok,
{
}

/// Nothing is deleted without a confirmation: not for an empty answer.
pub proof fn empty_answer_deletes_nothing(p: PaneView)
    ensures
        deleted_for(p, Seq::empty()) is None,
{
    reveal_strlit("y");
    assert("y"@.len() == 1);
}

/// Of the ASCII answers, the letter y confirms a deletion in either case, and no
/// other does.
pub proof fn only_the_letter_confirms(p: PaneView, answer: Seq<char>)
    requires
        is_ascii(answer),
    ensures
        answer == "y"@ || answer == "Y"@ ==> deleted_for(p, lowercase(answer)) == deleted_for(
            p,
            "y"@,
        ),
        answer != "y"@ && answer != "Y"@ ==> deleted_for(p, lowercase(answer)) is None,
{
    reveal_strlit("y");
    reveal_strlit("Y");
    let lower = ascii_lower(answer);
    if answer == "y"@ || answer == "Y"@ {
        assert(lower =~= "y"@);
    } else if lower == "y"@ {
        assert(lower.len() == answer.len());
        assert("y"@.len() == 1);
        assert(lower[0] == lower_char(answer[0]));
        lemma_letter_y(answer[0]);
        if answer[0] == 'y' {
            assert(answer =~= "y"@);
        } else {
            assert(answer =~= "Y"@);
        }
    }
}

/// Two characters are a y in lower case.
proof fn lemma_letter_y(c: char)
    ensures
        lower_char(c) == 'y' ==> c == 'y' || c == 'Y',
{
}

/// Accepting the proposed name renames nothing.
pub proof fn same_name_renames_nothing(p: PaneView, e: EntryView)
    requires
        p.list().current() == Some(e),
    ensures
        rename_transfer(p, Some(e.name)) is None,
{
}

/// The names to work on are the selected ones, each once and in their order, if
/// any position is selected; `at` tells where each stands. Else it is the name under
/// the cursor alone. The way up is left out.
pub proof fn work_is_on_what_is_selected(list: ListingView) -> (at: Seq<int>)
    requires
        list.entries.len() <= usize::MAX,
    ensures
        at.len() == working_names(list).len(),
        forall|i: int, j: int| 0 <= i < j < at.len() ==> at[i] < at[j],
        forall|i: int|
            0 <= i < at.len() ==> 0 <= #[trigger] at[i] < list.entries.len() && working_names(
                list,
            )[i] == list.entries[at[i]].name && list.entries[at[i]].name != ".."@,
        (exists|s: usize| list.selected.contains(s)) ==> forall|m: int|
            0 <= m < list.entries.len() && (#[trigger] list.entries[m]).name != ".."@ ==> (
            at.contains(m) <==> list.selected.contains(m as usize)),
        (forall|s: usize| !list.selected.contains(s)) && 0 <= list.cursor < list.entries.len()
            && list.entries[list.cursor].name != ".."@ ==> at == seq![list.cursor],
        (forall|s: usize| !list.selected.contains(s)) && !(0 <= list.cursor < list.entries.len()
            && list.entries[list.cursor].name != ".."@) ==> at.len() == 0,
{
    if list.selected != Set::<usize>::empty() {
        let at = crate::listing::selected_names_are_those_selected(list);
        if forall|s: usize| !list.selected.contains(s) {
            assert(list.selected =~= Set::<usize>::empty());
        }
        at
    } else {
        match list.current() {
            Some(e) => if e.name == ".."@ {
                Seq::empty()
            } else {
                seq![list.cursor]
            },
            None => Seq::empty(),
        }
    }
}

/// A confirmed deletion deletes each name that is worked on, in the directory of
/// the pane, and nothing else.
pub proof fn deletion_takes_each_name(l: LocalView, i: int)
    requires
        0 <= i < working_names(l.list).len(),
    ensures
        deleted_for(PaneView::Local(l), "y"@) matches Some(p) && {
            let name = working_names(l.list)[i];
            &&& p.len() == working_names(l.list).len()
            &&& p[i] == named(l.path, name)
            &&& is_plain_name(encode_utf8(name)) ==> leaf_of(p[i]) == Some(encode_utf8(name))
                && parent_of(p[i]) == Some(tidy_end(l.path))
        },
{
    let name = working_names(l.list)[i];
    if is_plain_name(encode_utf8(name)) {
        joined_name_is_found_again(l.path, encode_utf8(name));
    }
}

/// Different names are deleted at different paths.
pub proof fn deleted_paths_differ(l: LocalView, i: int, j: int)
    requires
        0 <= i < working_names(l.list).len(),
        0 <= j < working_names(l.list).len(),
        is_plain_name(encode_utf8(working_names(l.list)[i])),
        is_plain_name(encode_utf8(working_names(l.list)[j])),
        working_names(l.list)[i] != working_names(l.list)[j],
    ensures
        deleted_for(PaneView::Local(l), "y"@) matches Some(p) && p[i] != p[j],
{
    let a = encode_utf8(working_names(l.list)[i]);
    let b = encode_utf8(working_names(l.list)[j]);
    vstd::utf8::encode_utf8_decode_utf8(working_names(l.list)[i]);
    vstd::utf8::encode_utf8_decode_utf8(working_names(l.list)[j]);
    if joined(l.path, a) == joined(l.path, b) {
        different_names_have_different_paths(l.path, a, b);
    }
}

/// Several names go below the target that was typed, each under the name that it
/// has, whatever the other pane shows.
pub proof fn several_names_go_where_was_typed(
    s: LocalView,
    d: LocalView,
    target: Seq<char>,
    i: int,
)
    requires
        working_names(s.list).len() > 1,
        target.len() > 0,
        0 <= i < working_names(s.list).len(),
    ensures
        transfers_for(PaneView::Local(s), PaneView::Local(d), Some(target)) matches Some(t) && {
            let name = working_names(s.list)[i];
            &&& t.len() == working_names(s.list).len()
            &&& t[i].from == named(s.path, name)
            &&& t[i].to == named(encode_utf8(target), name)
            &&& is_plain_name(encode_utf8(name)) ==> leaf_of(t[i].from) == leaf_of(t[i].to)
                && leaf_of(t[i].to) == Some(encode_utf8(name)) && parent_of(t[i].from) == Some(
                tidy_end(s.path),
            ) && parent_of(t[i].to) == Some(tidy_end(encode_utf8(target)))
        },
{
    let name = working_names(s.list)[i];
    if is_plain_name(encode_utf8(name)) {
        joined_name_is_found_again(s.path, encode_utf8(name));
        joined_name_is_found_again(encode_utf8(target), encode_utf8(name));
    }
}

/// One name goes exactly to the path that was typed, whatever the other pane shows.
pub proof fn one_name_goes_where_was_typed(s: LocalView, d: LocalView, target: Seq<char>)
    requires
        working_names(s.list).len() == 1,
        target.len() > 0,
    ensures
        transfers_for(PaneView::Local(s), PaneView::Local(d), Some(target)) matches Some(t)
            && t.len() == 1 && t[0].from == named(s.path, working_names(s.list)[0]) && t[0].to
            == encode_utf8(target),
{
}

/// Nothing is copied or moved, deleted, renamed or made where a pane is remote, nor
/// without an answer, nor for an empty one.
pub proof fn nothing_happens_without_an_answer(p: PaneView, q: PaneView, answer: Option<Seq<char>>)
    requires
        answer is None || answer->0.len() == 0 || p is Remote,
    ensures
        transfers_for(p, q, answer) is None,
        q is Local ==> transfers_for(q, p, answer) is None,
        rename_transfer(p, answer) is None,
        made_directory(p, answer) is None,
        p is Remote ==> deleted_for(p, "y"@) is None,
        p is Remote ==> opened_file(p) is None,
        p is Remote ==> rename_plan(p) == PlanView::Notice(" Remote rename not supported"@),
        p is Remote ==> delete_plan(p) == PlanView::Notice(" Remote delete not supported"@),
        p is Remote ==> mkdir_plan(p) == PlanView::Notice(" Remote mkdir not supported"@),
        p is Remote ==> goto_plan(p) == PlanView::Notice(" Use ← → to navigate remote pane"@),
{
}

/// Without a name to work on nothing is asked: not on the way up, and not in an empty
/// directory.
pub proof fn nothing_is_asked_without_a_name(l: LocalView, d: LocalView, label: Seq<char>)
    ensures
        working_names(l.list).len() == 0 ==> delete_plan(PaneView::Local(l)) is Nothing
            && transfer_plan(PaneView::Local(l), PaneView::Local(d), label, label) is Nothing,
        working_names(l.list).len() > 0 ==> (delete_plan(PaneView::Local(l)) matches PlanView::Ask(
            q,
            _,
        ) && q == delete_label(working_names(l.list))) && (transfer_plan(
            PaneView::Local(l),
            PaneView::Local(d),
            label,
            label,
        ) matches PlanView::Ask(q, _) && q == label),
        l.list.current() is None ==> rename_plan(PaneView::Local(l)) is Nothing,
        l.list.current() matches Some(e) ==> (rename_plan(PaneView::Local(l)) is Nothing <==> e.name
            == ".."@),
{
}

/// An entry is renamed in its directory: from the path of the entry under the
/// cursor to the path of the new name beside it.
pub proof fn renaming_stays_in_the_directory(l: LocalView, e: EntryView, new: Seq<char>)
    requires
        l.list.current() == Some(e),
        e.name != ".."@,
        new != e.name,
        is_plain_name(encode_utf8(e.name)),
        is_plain_name(encode_utf8(new)),
    ensures
        rename_transfer(PaneView::Local(l), Some(new)) matches Some(t) && leaf_of(t.from) == Some(
            encode_utf8(e.name),
        ) && leaf_of(t.to) == Some(encode_utf8(new)) && parent_of(t.from) == Some(
            tidy_end(l.path),
        ) && parent_of(t.to) == Some(tidy_end(l.path)) && t.from == named(l.path, e.name) && t.to
            == named(l.path, new),
{
    lemma_something_typed(new);
    joined_name_is_found_again(l.path, encode_utf8(e.name));
    joined_name_is_found_again(l.path, encode_utf8(new));
}

/// A text whose bytes name a file has a character.
proof fn lemma_something_typed(name: Seq<char>)
    requires
        is_plain_name(encode_utf8(name)),
    ensures
        name.len() > 0,
{
    if name.len() == 0 {
        assert(encode_utf8(name).len() == 0);
    }
}

/// A new directory is made in the directory of the pane, under the name that was
/// typed.
pub proof fn directory_is_made_in_the_pane(l: LocalView, name: Seq<char>)
    requires
        is_plain_name(encode_utf8(name)),
    ensures
        made_directory(PaneView::Local(l), Some(name)) matches Some(p) && p == named(l.path, name)
            && leaf_of(p) == Some(encode_utf8(name)) && parent_of(p) == Some(tidy_end(l.path)),
{
    lemma_something_typed(name);
    joined_name_is_found_again(l.path, encode_utf8(name));
}

/// A file that is viewed or edited is the one under the cursor, below the path of
/// the pane, and the program is the one that was named, or else the usual one. A
/// directory is not opened.
pub proof fn file_under_the_cursor_is_opened(
    l: LocalView,
    e: EntryView,
    program: Seq<char>,
    default: Seq<char>,
)
    requires
        l.list.current() == Some(e),
        valid_utf8(l.path),
    ensures
        e.is_dir ==> launch_of(PaneView::Local(l), Some(program), default) is None && launch_of(
            PaneView::Local(l),
            None,
            default,
        ) is None,
        !e.is_dir ==> (launch_of(PaneView::Local(l), Some(program), default) matches Some(r)
            && r.0 == program && encode_utf8(r.1) == named(l.path, e.name)),
        !e.is_dir ==> (launch_of(PaneView::Local(l), None, default) matches Some(r) && r.0
            == default && encode_utf8(r.1) == named(l.path, e.name)),
{
    lemma_named_is_text(l.path, e.name);
    lemma_shown_is_encoded(named(l.path, e.name));
}

/// Going to a directory shows it at its canonical path if it has one, else at the
/// path that was typed; the cursor is at the top, and nothing is said. Where there
/// is no directory the pane stays, and the user is told of the path.
pub proof fn going_shows_the_directory(
    v: LocalView,
    target: Seq<char>,
    canonical: Option<Seq<u8>>,
)
    ensures
        ({
            let (after, told) = gone_to(v, target, true, canonical);
            &&& told is None
            &&& canonical is Some ==> after.path == canonical->0
            &&& canonical is None ==> after.path == encode_utf8(target)
            &&& after.list.cursor == 0
            &&& after.list.offset == 0
        }),
        ({
            let (after, told) = gone_to(v, target, false, canonical);
            &&& after == v
            &&& told matches Some(t) && t.len() > target.len() && t.skip(t.len() - target.len())
                == target
        }),
{
    reveal_strlit(" Not a directory: ");
    let t = " Not a directory: "@ + target;
    assert(t.skip(t.len() - target.len()) =~= target);
}

/// The question before a deletion names the one name, or gives the number of names.
pub proof fn question_tells_what_is_deleted(names: Seq<Seq<char>>)
    ensures
        names.len() == 1 ==> delete_label(names) == "Delete '"@ + names[0] + "'? [y/N]"@,
        names.len() > 1 ==> delete_label(names) == "Delete "@ + decimal(names.len())
            + " items? [y/N]"@,
{
    reveal_strlit("Delete '");
    reveal_strlit("Delete ");
    reveal_strlit("'? [y/N]");
    reveal_strlit("? [y/N]");
    reveal_strlit(" items? [y/N]");
    reveal_strlit(" items");
    if names.len() == 1 {
        assert(delete_label(names) =~= "Delete '"@ + names[0] + "'? [y/N]"@);
    } else {
        assert(delete_label(names) =~= "Delete "@ + decimal(names.len()) + " items? [y/N]"@);
    }
}

/// Moving tries to rename first and ends with that if it succeeds; if it fails it
/// copies, and after a copy it removes the source. A failed copy removes nothing.
pub proof fn moving_goes_by_stages()
    ensures
        move_next(MoveStage::Rename, true) == MoveStep::Done,
        move_next(MoveStage::Rename, false) == MoveStep::Go(MoveStage::Copy),
        move_next(MoveStage::Copy, true) == MoveStep::Go(MoveStage::Remove),
        move_next(MoveStage::Copy, false) == MoveStep::Fail,
        move_next(MoveStage::Remove, true) == MoveStep::Done,
        move_next(MoveStage::Remove, false) == MoveStep::Fail,
{
}

/// What is asked starts from what there is: the name for renaming, the path of the
/// pane for going somewhere, and nothing for a new directory or a deletion.
pub proof fn questions_start_from_what_there_is(l: LocalView, e: EntryView)
    requires
        l.list.current() == Some(e),
        e.name != ".."@,
        valid_utf8(l.path),
    ensures
        rename_plan(PaneView::Local(l)) matches PlanView::Ask(q, d) && q == "Rename to"@ && d
            == e.name,
        goto_plan(PaneView::Local(l)) matches PlanView::Ask(q, d) && q == "Go to"@ && encode_utf8(d)
            == l.path,
        mkdir_plan(PaneView::Local(l)) matches PlanView::Ask(q, d) && q == "New directory"@
            && d.len() == 0,
        working_names(l.list).len() > 0 ==> (delete_plan(PaneView::Local(l)) matches PlanView::Ask(
            _,
            d,
        ) && d.len() == 0),
{
    lemma_shown_is_encoded(l.path);
}

/// The transfers and the paths that are given are taken each and whole.
pub proof fn work_is_taken_whole(t: Vec<Transfer>, p: Vec<Vec<u8>>, i: int)
    ensures
        many_view(Some(t)) matches Some(v) && v.len() == t@.len() && (0 <= i < t@.len()
            ==> v[i].from == t@[i].from@ && v[i].to == t@[i].to@),
        paths_view(Some(p)) matches Some(v) && v.len() == p@.len() && (0 <= i < p@.len() ==> v[i]
            == p@[i]@),
        many_view(None) is None,
        paths_view(None) is None,
{
}

} // verus!
