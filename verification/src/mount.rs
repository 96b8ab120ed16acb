//! Mounting the remotes of rclone.

use vstd::prelude::*;
use vstd::utf8::encode_utf8;

use crate::pane::{Pane, PaneView, Panes, PanesView};
use crate::path::text_view;
use crate::picker::{Picker, PickerView};
use crate::scan::{
    drop_end_char, has_prefix, is_word, lines, split_lines, split_words,
    text_without_white_space_is_a_word, texts, trim_end_matches, words,
    words_are_split_at_white_space,
};
use crate::text::{bytes_of, chain, chars_of, shown, shown_text, text_eq, text_of};

verus! {

/// Adds a text to a list of them.
fn add_text(v: &mut Vec<String>, s: String)
    ensures
        texts(final(v)@) == texts(old(v)@).push(s@),
{
    let ghost t = s@;
    v.push(s);
    assert(texts(v@) =~= texts(old(v)@).push(t));
}

/// Where rclone's configuration may be, in the order in which it is sought: where
/// the environment says, then at three places below the home directory.
pub open spec fn config_places(named: Option<Seq<char>>, home: Seq<char>) -> Seq<Seq<char>> {
    let first = match named {
        Some(p) => seq![p],
        None => Seq::empty(),
    };
    first.push(home + "/git/conf/rclone.conf"@).push(home + "/.config/rclone/rclone.conf"@).push(
        home + "/.rclone.conf"@,
    )
}

/// Where rclone's configuration may be.
pub fn config_candidates(named: &Option<String>, home: &str) -> (r: Vec<String>)
    ensures
        texts(r@) == config_places(text_view(*named), home@),
{
    let mut r: Vec<String> = Vec::new();
    assert(texts(r@) =~= Seq::empty());
    match named {
        Some(p) => {
            add_text(&mut r, p.clone());
            assert(texts(r@) =~= seq![p@]);
        },
        None => {},
    }
    add_text(&mut r, chain(home, "/git/conf/rclone.conf"));
    add_text(&mut r, chain(home, "/.config/rclone/rclone.conf"));
    add_text(&mut r, chain(home, "/.rclone.conf"));
    r
}

/// The first of the places that exists.
pub open spec fn first_existing(places: Seq<Seq<char>>, exist: Seq<bool>) -> Option<Seq<char>>
    decreases places.len(),
{
    if places.len() == 0 {
        None
    } else if exist[0] {
        Some(places[0])
    } else {
        first_existing(places.skip(1), exist.skip(1))
    }
}

/// The configuration to use, given which of the places exist.
pub fn rclone_config_flag(places: &Vec<String>, exist: &Vec<bool>) -> (r: Option<String>)
    requires
        places@.len() == exist@.len(),
    ensures
        text_view(r) == first_existing(texts(places@), exist@),
{
    let ghost ps = texts(places@);
    let n = places.len();
    let mut i: usize = 0;
    assert(ps.skip(0) =~= ps);
    assert(exist@.skip(0) =~= exist@);
    while i < n
        invariant
            n == places@.len(),
            n == exist@.len(),
            ps == texts(places@),
            i <= n,
            first_existing(ps.skip(i as int), exist@.skip(i as int)) == first_existing(ps, exist@),
        decreases n - i,
    {
        assert(ps.skip(i as int)[0] == places@[i as int]@);
        assert(exist@.skip(i as int)[0] == exist@[i as int]);
        if exist[i] {
            return Some(places[i].clone());
        }
        assert(ps.skip(i as int).skip(1) =~= ps.skip(i + 1));
        assert(exist@.skip(i as int).skip(1) =~= exist@.skip(i + 1));
        i += 1;
    }
    None
}

/// The arguments that name the configuration, if there is one.
pub open spec fn with_config(args: Seq<Seq<char>>, config: Option<Seq<char>>) -> Seq<Seq<char>> {
    match config {
        Some(c) => args.push("--config"@).push(c),
        None => args,
    }
}

/// Names the configuration.
fn add_config(args: &mut Vec<String>, config: &Option<String>)
    ensures
        texts(final(args)@) == with_config(texts(old(args)@), text_view(*config)),
{
    match config {
        Some(c) => {
            add_text(args, "--config".to_string());
            add_text(args, c.clone());
        },
        None => {},
    }
}

/// The arguments with which rclone lists its remotes.
pub fn listing_args(config: &Option<String>) -> (r: Vec<String>)
    ensures
        texts(r@) == with_config(seq!["listremotes"@], text_view(*config)),
{
    let mut r: Vec<String> = Vec::new();
    add_text(&mut r, "listremotes".to_string());
    assert(texts(r@) =~= seq!["listremotes"@]);
    add_config(&mut r, config);
    r
}

/// The names of remotes in the first `k` lines: without the colons at the end,
/// and without empty ones.
pub open spec fn remotes_in(ls: Seq<Seq<char>>, k: int) -> Seq<Seq<char>>
    decreases k,
{
    if k <= 0 {
        Seq::empty()
    } else {
        let name = trim_end_matches(ls[k - 1], ':');
        if name.len() == 0 {
            remotes_in(ls, k - 1)
        } else {
            remotes_in(ls, k - 1).push(name)
        }
    }
}

/// The names of remotes in what rclone wrote.
pub fn list_rclone_remotes(output: &[u8]) -> (r: Vec<String>)
    ensures
        texts(r@) == remotes_in(
            lines(shown_text(output@)),
            lines(shown_text(output@)).len() as int,
        ),
{
    remotes_of(shown(output).as_str())
}

/// The names of remotes in a text.
pub fn remotes_of(output: &str) -> (r: Vec<String>)
    ensures
        texts(r@) == remotes_in(lines(output@), lines(output@).len() as int),
{
    let ls = split_lines(output);
    let ghost all = lines(output@);
    let n = ls.len();
    let mut r: Vec<String> = Vec::new();
    let mut i: usize = 0;
    assert(texts(r@) =~= Seq::empty());
    while i < n
        invariant
            n == ls@.len(),
            texts(ls@) == all,
            i <= n,
            texts(r@) == remotes_in(all, i as int),
        decreases n - i,
    {
        assert(all[i as int] == ls@[i as int]@);
        let v = chars_of(ls[i].as_str());
        let name = drop_end_char(v.as_slice(), ':');
        if name.len() > 0 {
            add_text(&mut r, text_of(name));
        }
        i += 1;
    }
    r
}

/// Whether a line of the table of mounts names a place: as its second word.
pub open spec fn names_place(line: Seq<char>, place: Seq<char>) -> bool {
    words(line, true).len() > 1 && words(line, true)[1] == place
}

/// Whether something is mounted at a place, by the table of mounts.
pub open spec fn is_mounted_by(table: Seq<char>, place: Seq<char>) -> bool {
    exists|i: int| 0 <= i < lines(table).len() && names_place(#[trigger] lines(table)[i], place)
}

/// Tests whether something is mounted at a place.
pub fn is_mounted(table: &str, mp: &str) -> (r: bool)
    ensures
        r == is_mounted_by(table@, mp@),
{
    let ls = split_lines(table);
    let ghost all = lines(table@);
    for i in 0..ls.len()
        invariant
            texts(ls@) == all,
            all == lines(table@),
            forall|j: int| 0 <= j < i ==> !names_place(#[trigger] all[j], mp@),
    {
        assert(all[i as int] == ls@[i as int]@);
        let w = split_words(ls[i].as_str(), true);
        if w.len() > 1 {
            assert(texts(w@)[1] == w@[1]@);
            if text_eq(w[1].as_str(), mp) {
                assert(names_place(all[i as int], mp@));
                return true;
            }
        }
    }
    false
}

/// The picker of remotes, if there are any.
pub fn pick_remote(remotes: Vec<String>) -> (r: Result<Picker, String>)
    ensures
        match r {
            Ok(p) => remotes@.len() > 0 && p@ == (PickerView {
                title: "rclone Remotes"@,
                items: texts(remotes@),
                cursor: 0,
            }) && p@.is_valid(),
            Err(e) => remotes@.len() == 0 && e@
                == " No rclone remotes found (is rclone installed and configured?)"@,
        },
{
    match Picker::new("rclone Remotes", remotes) {
        Some(p) => Ok(p),
        None => Err(
            " No rclone remotes found (is rclone installed and configured?)".to_string(),
        ),
    }
}

/// Where a remote is mounted.
pub open spec fn place_of(remote: Seq<char>) -> Seq<char> {
    "/tmp/oc-"@ + remote
}

/// Where a remote is mounted.
pub fn mount_point(remote: &str) -> (r: String)
    ensures
        r@ == place_of(remote@),
{
    chain("/tmp/oc-", remote)
}

/// The arguments with which rclone mounts a remote.
pub open spec fn mounting_args(remote: Seq<char>, config: Option<Seq<char>>) -> Seq<Seq<char>> {
    with_config(
        seq![
            "mount"@,
            remote + ":"@,
            place_of(remote),
            "--vfs-cache-mode"@,
            "writes"@,
        ],
        config,
    )
}

/// The arguments with which rclone mounts a remote.
pub fn mount_args(remote: &str, config: &Option<String>) -> (r: Vec<String>)
    ensures
        texts(r@) == mounting_args(remote@, text_view(*config)),
{
    let mut r: Vec<String> = Vec::new();
    add_text(&mut r, "mount".to_string());
    add_text(&mut r, chain(remote, ":"));
    add_text(&mut r, mount_point(remote));
    add_text(&mut r, "--vfs-cache-mode".to_string());
    add_text(&mut r, "writes".to_string());
    assert(texts(r@) =~= seq![
        "mount"@,
        remote@ + ":"@,
        place_of(remote@),
        "--vfs-cache-mode"@,
        "writes"@,
    ]);
    add_config(&mut r, config);
    r
}

/// What is shown before a remote is mounted.
pub fn mounting_text(remote: &str) -> (r: String)
    ensures
        r@ == " Mounting "@ + remote@ + "..."@,
{
    let mut r = chain(" Mounting ", remote);
    r.push_str("...");
    r
}

/// How often it is asked whether a remote is mounted; a tenth of a second passes
/// before each time.
pub const MOUNT_POLLS: u32 = 100;

/// How far mounting has come.
#[derive(Clone, Copy, Debug, PartialEq, Eq, Structural)]
pub enum MountStage {
    /// It is asked whether the remote is mounted already.
    Check,
    /// The place for it is made.
    Create,
    /// The user is told, and rclone is started.
    Start,
    /// After a tenth of a second it is asked whether the remote is mounted; that
    /// was done so many times before.
    Wait(u32),
}

/// How a stage went.
pub enum MountEvent {
    /// Whether the remote is mounted.
    Mounted(bool),
    /// It was done, or there was this error.
    Did(Option<String>),
}

/// The content of an event.
pub enum MountEventView {
    Mounted(bool),
    Did(Option<Seq<char>>),
}

impl View for MountEvent {
    type V = MountEventView;

    open spec fn view(&self) -> MountEventView {
        match self {
            MountEvent::Mounted(b) => MountEventView::Mounted(*b),
            MountEvent::Did(e) => MountEventView::Did(text_view(*e)),
        }
    }
}

/// What follows a stage.
pub enum MountStep {
    /// This stage.
    Go(MountStage),
    /// The right pane goes to the place; if the mount is new, it is to be undone
    /// at the end.
    Arrive { new: bool },
    /// The user is told this.
    Fail(String),
}

/// The content of a step.
#[verifier::ext_equal]
pub enum MountStepView {
    Go(MountStage),
    Arrive { new: bool },
    Fail(Seq<char>),
}

impl View for MountStep {
    type V = MountStepView;

    open spec fn view(&self) -> MountStepView {
        match self {
            MountStep::Go(s) => MountStepView::Go(*s),
            MountStep::Arrive { new } => MountStepView::Arrive { new: *new },
            MountStep::Fail(e) => MountStepView::Fail(e@),
        }
    }
}

/// Whether an event is one of a stage.
pub open spec fn is_event_of(stage: MountStage, e: MountEventView) -> bool {
    match stage {
        MountStage::Check => e is Mounted,
        MountStage::Create => e is Did,
        MountStage::Start => e is Did,
        MountStage::Wait(k) => e is Mounted && k < MOUNT_POLLS,
    }
}

/// What follows a stage.
pub open spec fn mount_step(remote: Seq<char>, stage: MountStage, e: MountEventView)
    -> MountStepView {
    match (stage, e) {
        (MountStage::Check, MountEventView::Mounted(yes)) => if yes {
            MountStepView::Arrive { new: false }
        } else {
            MountStepView::Go(MountStage::Create)
        },
        (MountStage::Create, MountEventView::Did(error)) => match error {
            None => MountStepView::Go(MountStage::Start),
            Some(e) => MountStepView::Fail(" Cannot create mountpoint: "@ + e),
        },
        (MountStage::Start, MountEventView::Did(error)) => match error {
            None => MountStepView::Go(MountStage::Wait(0)),
            Some(e) => MountStepView::Fail(" rclone spawn failed: "@ + e),
        },
        (MountStage::Wait(k), MountEventView::Mounted(yes)) => if yes {
            MountStepView::Arrive { new: true }
        } else if k + 1 < MOUNT_POLLS {
            MountStepView::Go(MountStage::Wait((k + 1) as u32))
        } else {
            MountStepView::Fail(" Timeout waiting for "@ + remote + " to mount"@)
        },
        _ => MountStepView::Fail(Seq::empty()),
    }
}

/// Takes how a stage of mounting went.
pub fn op_rclone_mount(remote: &str, stage: MountStage, e: &MountEvent) -> (r: MountStep)
    requires
        is_event_of(stage, e@),
    ensures
        r@ == mount_step(remote@, stage, e@),
{
    match (stage, e) {
        (MountStage::Check, MountEvent::Mounted(yes)) => {
            if *yes {
                MountStep::Arrive { new: false }
            } else {
                MountStep::Go(MountStage::Create)
            }
        },
        (MountStage::Create, MountEvent::Did(error)) => match error {
            None => MountStep::Go(MountStage::Start),
            Some(e) => MountStep::Fail(chain(" Cannot create mountpoint: ", e.as_str())),
        },
        (MountStage::Start, MountEvent::Did(error)) => match error {
            None => MountStep::Go(MountStage::Wait(0)),
            Some(e) => MountStep::Fail(chain(" rclone spawn failed: ", e.as_str())),
        },
        (MountStage::Wait(k), MountEvent::Mounted(yes)) => {
            if *yes {
                MountStep::Arrive { new: true }
            } else if k + 1 < MOUNT_POLLS {
                MountStep::Go(MountStage::Wait(k + 1))
            } else {
                let mut t = chain(" Timeout waiting for ", remote);
                t.push_str(" to mount");
                MountStep::Fail(t)
            }
        },
        _ => MountStep::Fail(String::new()),
    }
}

/// What is to be done once the right pane goes to a place.
pub enum Arrival {
    /// Its listing is to be read.
    List,
    /// A local pane is to be opened there, in place of the remote one.
    Open(String),
}

/// The content of an arrival.
#[verifier::ext_equal]
pub enum ArrivalView {
    List,
    Open(Seq<char>),
}

impl View for Arrival {
    type V = ArrivalView;

    open spec fn view(&self) -> ArrivalView {
        match self {
            Arrival::List => ArrivalView::List,
            Arrival::Open(p) => ArrivalView::Open(p@),
        }
    }
}

/// The right pane at a place.
pub open spec fn right_at(v: PanesView, path: Seq<char>) -> (PanesView, ArrivalView) {
    match v.right {
        PaneView::Local(l) => (
            PanesView { right: PaneView::Local(l.at_path(encode_utf8(path))), ..v },
            ArrivalView::List,
        ),
        PaneView::Remote(_) => (v, ArrivalView::Open(path)),
    }
}

/// Takes the right pane to a place.
pub fn navigate_right_to(panes: &mut Panes, path: &str) -> (r: Arrival)
    ensures
        (final(panes)@, r@) == right_at(old(panes)@, path@),
{
    match &mut panes.right {
        Pane::Local(l) => {
            l.go_to(bytes_of(path));
            Arrival::List
        },
        Pane::Remote(_) => Arrival::Open(path.to_string()),
    }
}

/// The commands that unmount a place, each tried if the one before it failed.
pub open spec fn unmounting(place: Seq<char>) -> Seq<Seq<Seq<char>>> {
    seq![
        seq!["fusermount3"@, "-u"@, place],
        seq!["fusermount"@, "-u"@, place],
        seq!["umount"@, place],
    ]
}

/// The commands that unmount the places: for each of them, those to be tried
/// until one succeeds.
pub open spec fn unmounting_all(places: Seq<Seq<char>>) -> Seq<Seq<Seq<Seq<char>>>> {
    places.map_values(|p: Seq<char>| unmounting(p))
}

/// The words of some commands.
pub open spec fn command_texts(v: Seq<Vec<String>>) -> Seq<Seq<Seq<char>>> {
    v.map_values(|c: Vec<String>| texts(c@))
}

/// The words of some lists of commands.
pub open spec fn command_lists(v: Seq<Vec<Vec<String>>>) -> Seq<Seq<Seq<Seq<char>>>> {
    v.map_values(|c: Vec<Vec<String>>| command_texts(c@))
}

/// A command of one word or two, with its argument.
fn command(name: &str, option: Option<&str>, arg: &str) -> (r: Vec<String>)
    ensures
        texts(r@) == (match option {
            Some(o) => seq![name@, o@, arg@],
            None => seq![name@, arg@],
        }),
{
    let mut r: Vec<String> = Vec::new();
    add_text(&mut r, name.to_string());
    match option {
        Some(o) => {
            add_text(&mut r, o.to_string());
            add_text(&mut r, arg.to_string());
            assert(texts(r@) =~= seq![name@, o@, arg@]);
        },
        None => {
            add_text(&mut r, arg.to_string());
            assert(texts(r@) =~= seq![name@, arg@]);
        },
    }
    r
}

/// The commands that unmount a place.
fn unmount(mp: &str) -> (r: Vec<Vec<String>>)
    ensures
        command_texts(r@) == unmounting(mp@),
{
    let mut r: Vec<Vec<String>> = Vec::new();
    r.push(command("fusermount3", Some("-u"), mp));
    r.push(command("fusermount", Some("-u"), mp));
    r.push(command("umount", None, mp));
    assert(command_texts(r@) =~= unmounting(mp@));
    r
}

/// The commands that unmount the places.
pub fn unmount_all(mounts: &Vec<String>) -> (r: Vec<Vec<Vec<String>>>)
    ensures
        command_lists(r@) == unmounting_all(texts(mounts@)),
{
    let mut r: Vec<Vec<Vec<String>>> = Vec::new();
    for i in 0..mounts.len()
        invariant
            r@.len() == i,
            forall|j: int|
                0 <= j < i ==> command_texts((#[trigger] r@[j])@) == unmounting(mounts@[j]@),
    {
        r.push(unmount(mounts[i].as_str()));
    }
    assert(command_lists(r@) =~= unmounting_all(texts(mounts@)));
    r
}

/// What comes of asking again and again while nothing is mounted.
pub open spec fn waited(remote: Seq<char>, k: u32, times: nat) -> MountStepView
    decreases times,
{
    if times == 0 {
        MountStepView::Go(MountStage::Wait(k))
    } else {
        match mount_step(remote, MountStage::Wait(k), MountEventView::Mounted(false)) {
            MountStepView::Go(MountStage::Wait(j)) => waited(remote, j, (times - 1) as nat),
            other => other,
        }
    }
}

/// Waiting gives up after the hundredth time that nothing is mounted, and not
/// before.
pub proof fn waiting_gives_up(remote: Seq<char>, k: u32, times: nat)
    requires
        k < MOUNT_POLLS,
        k + times <= MOUNT_POLLS,
    ensures
        k + times < MOUNT_POLLS ==> waited(remote, k, times) == MountStepView::Go(
            MountStage::Wait((k + times) as u32),
        ),
        k + times == MOUNT_POLLS ==> waited(remote, k, times) == MountStepView::Fail(
            " Timeout waiting for "@ + remote + " to mount"@,
        ),
    decreases times,
{
    if times > 0 && k + 1 < MOUNT_POLLS {
        waiting_gives_up(remote, (k + 1) as u32, (times - 1) as nat);
    }
}

/// Only what was mounted here is to be undone at the end: what was mounted before
/// stays.
pub proof fn only_new_mounts_are_undone(remote: Seq<char>, stage: MountStage, e: MountEventView)
    requires
        is_event_of(stage, e),
    ensures
        mount_step(remote, stage, e) == (MountStepView::Arrive { new: true }) <==> stage is Wait
            && e == MountEventView::Mounted(true),
        mount_step(remote, stage, e) == (MountStepView::Arrive { new: false }) <==> stage is Check
            && e == MountEventView::Mounted(true),
{
}

/// The place that the environment names comes first, if it names one; then come the
/// same three below the home directory.
pub proof fn named_configuration_comes_first(named: Seq<char>, home: Seq<char>, i: int)
    ensures
        config_places(Some(named), home).len() == 4,
        config_places(None, home).len() == 3,
        config_places(Some(named), home)[0] == named,
        0 <= i < 3 ==> config_places(Some(named), home)[i + 1] == config_places(None, home)[i],
        0 <= i < 3 ==> has_prefix(config_places(None, home)[i], home),
        config_places(None, home)[0].skip(home.len() as int) == "/git/conf/rclone.conf"@,
        config_places(None, home)[1].skip(home.len() as int) == "/.config/rclone/rclone.conf"@,
        config_places(None, home)[2].skip(home.len() as int) == "/.rclone.conf"@,
{
    let c = config_places(None, home);
    assert((home + "/git/conf/rclone.conf"@).skip(home.len() as int) =~= "/git/conf/rclone.conf"@);
    assert((home + "/.config/rclone/rclone.conf"@).skip(home.len() as int)
        =~= "/.config/rclone/rclone.conf"@);
    assert((home + "/.rclone.conf"@).skip(home.len() as int) =~= "/.rclone.conf"@);
    if 0 <= i < 3 {
        assert(c[i].take(home.len() as int) =~= home);
    }
}

/// The configuration is the first of the places that exists; there is none where no
/// place does.
pub proof fn first_existing_place_is_used(places: Seq<Seq<char>>, exist: Seq<bool>, k: int)
    requires
        places.len() == exist.len(),
        0 <= k <= places.len(),
        forall|j: int| 0 <= j < k ==> !(#[trigger] exist[j]),
    ensures
        k == places.len() ==> first_existing(places, exist) is None,
        k < places.len() && exist[k] ==> first_existing(places, exist) == Some(places[k]),
    decreases k,
{
    if k > 0 {
        assert(!exist[0]);
        let e = exist.skip(1);
        assert forall|j: int| 0 <= j < k - 1 implies !(#[trigger] e[j]) by {
            assert(e[j] == exist[j + 1]);
        }
        first_existing_place_is_used(places.skip(1), e, k - 1);
    }
}

/// Where rclone writes the name of each remote with a colon behind it, the remotes
/// are those names, all of them and in their order.
pub proof fn listed_remotes_are_read(ls: Seq<Seq<char>>, names: Seq<Seq<char>>, k: int)
    requires
        ls.len() == names.len(),
        0 <= k <= ls.len(),
        forall|i: int|
            0 <= i < ls.len() ==> (#[trigger] names[i]).len() > 0 && names[i].last() != ':' && ls[i]
                == names[i].push(':'),
    ensures
        remotes_in(ls, k) == names.take(k),
    decreases k,
{
    if k == 0 {
        assert(names.take(0) =~= Seq::<Seq<char>>::empty());
    } else {
        listed_remotes_are_read(ls, names, k - 1);
        let n = names[k - 1];
        assert(n.push(':').drop_last() =~= n);
        assert(trim_end_matches(n, ':') == n);
        assert(trim_end_matches(ls[k - 1], ':') == n);
        assert(names.take(k - 1).push(n) =~= names.take(k));
    }
}

/// A line without a name adds no remote.
pub proof fn empty_line_is_no_remote(ls: Seq<Seq<char>>, k: int)
    requires
        0 < k <= ls.len(),
        forall|i: int| 0 <= i < ls[k - 1].len() ==> #[trigger] ls[k - 1][i] == ':',
    ensures
        remotes_in(ls, k) == remotes_in(ls, k - 1),
{
    let s = ls[k - 1];
    crate::scan::trimming_takes_the_character_only(s, ':');
    let t = trim_end_matches(s, ':');
    if t.len() > 0 {
        assert(t.last() == s[t.len() - 1]);
    }
}

/// A place is mounted if a line of the table has it as its second word.
pub proof fn second_word_is_the_place(
    table: Seq<char>,
    i: int,
    device: Seq<char>,
    place: Seq<char>,
    rest: Seq<char>,
)
    requires
        is_word(device, true),
        is_word(place, true),
        0 <= i < lines(table).len(),
        lines(table)[i] == device + seq![' '] + (place + seq![' '] + rest),
    ensures
        is_mounted_by(table, place),
{
    let line = lines(table)[i];
    words_are_split_at_white_space(device, ' ', place + seq![' '] + rest, true);
    words_are_split_at_white_space(place, ' ', rest, true);
    text_without_white_space_is_a_word(device, true);
    text_without_white_space_is_a_word(place, true);
    assert(words(line, true) =~= seq![device] + (seq![place] + words(rest, true)));
    assert(names_place(lines(table)[i], place));
}

/// A place that no line has as its second word is not mounted.
pub proof fn absent_place_is_not_mounted(table: Seq<char>, place: Seq<char>)
    requires
        forall|i: int|
            0 <= i < lines(table).len() ==> words(#[trigger] lines(table)[i], true).len() < 2
                || words(lines(table)[i], true)[1] != place,
    ensures
        !is_mounted_by(table, place),
{
}

/// Different remotes are mounted at different places, each below the directory for
/// temporary files.
pub proof fn remotes_have_places_of_their_own(a: Seq<char>, b: Seq<char>)
    ensures
        has_prefix(place_of(a), "/tmp/oc-"@),
        place_of(a).skip("/tmp/oc-"@.len() as int) == a,
        place_of(a) == place_of(b) ==> a == b,
{
    let n = "/tmp/oc-"@.len() as int;
    assert(place_of(a).take(n) =~= "/tmp/oc-"@);
    assert(place_of(a).skip(n) =~= a);
    assert(place_of(b).skip(n) =~= b);
}

/// rclone is told to mount the remote that was picked, at its place, and where its
/// configuration is if that is known.
pub proof fn remote_is_mounted_at_its_place(remote: Seq<char>, config: Seq<char>)
    ensures
        ({
            let args = mounting_args(remote, None);
            let more = mounting_args(remote, Some(config));
            &&& args.len() == 5
            &&& args[0] == "mount"@
            &&& args[1] == remote.push(':')
            &&& args[2] == "/tmp/oc-"@ + remote
            &&& args[3] == "--vfs-cache-mode"@
            &&& args[4] == "writes"@
            &&& more == args + seq!["--config"@, config]
        }),
{
    reveal_strlit(":");
    assert(remote + ":"@ =~= remote.push(':'));
    assert(mounting_args(remote, Some(config)) =~= mounting_args(remote, None) + seq![
        "--config"@,
        config,
    ]);
}

/// Mounting asks first whether that was done, then makes the place, then starts
/// rclone, then waits. A failure ends it, with the error in what the user is told;
/// a hundred questions in vain end it too.
pub proof fn mounting_goes_by_stages(remote: Seq<char>, error: Seq<char>, k: u32)
    ensures
        mount_step(remote, MountStage::Check, MountEventView::Mounted(false)) == MountStepView::Go(
            MountStage::Create,
        ),
        mount_step(remote, MountStage::Create, MountEventView::Did(None)) == MountStepView::Go(
            MountStage::Start,
        ),
        mount_step(remote, MountStage::Start, MountEventView::Did(None)) == MountStepView::Go(
            MountStage::Wait(0),
        ),
        k < 99 ==> mount_step(remote, MountStage::Wait(k), MountEventView::Mounted(false))
            == MountStepView::Go(MountStage::Wait((k + 1) as u32)),
        mount_step(remote, MountStage::Wait(99), MountEventView::Mounted(false)) is Fail,
        mount_step(remote, MountStage::Create, MountEventView::Did(Some(error))) matches
            MountStepView::Fail(t) && t.len() >= error.len() && t.skip(t.len() - error.len())
            == error,
        mount_step(remote, MountStage::Start, MountEventView::Did(Some(error))) matches
            MountStepView::Fail(t) && t.len() >= error.len() && t.skip(t.len() - error.len())
            == error,
{
    let a = " Cannot create mountpoint: "@ + error;
    let b = " rclone spawn failed: "@ + error;
    assert(a.skip(a.len() - error.len()) =~= error);
    assert(b.skip(b.len() - error.len()) =~= error);
}

/// The right pane goes to the place, at the top, and the left one stays. A remote
/// pane is to be replaced by a local one there.
pub proof fn right_pane_goes_to_the_place(v: PanesView, path: Seq<char>)
    ensures
        right_at(v, path).0.left == v.left,
        v.right matches PaneView::Local(l) ==> (right_at(v, path).0.right matches PaneView::Local(
            r,
        ) && r.path == encode_utf8(path) && r.list.cursor == 0 && r.list.offset == 0 && r.sort
            == l.sort && r.reverse == l.reverse) && right_at(v, path).1 is List,
        v.right is Remote ==> right_at(v, path) == (v, ArrivalView::Open(path)),
{
}

/// Each place is unmounted by commands that name it last, in the order of the
/// places.
pub proof fn every_place_is_unmounted(places: Seq<Seq<char>>, i: int, j: int)
    requires
        0 <= i < places.len(),
        0 <= j < 3,
    ensures
        unmounting_all(places).len() == places.len(),
        unmounting_all(places)[i].len() == 3,
        unmounting_all(places)[i][j].last() == places[i],
        unmounting_all(places)[i][j][0] == seq!["fusermount3"@, "fusermount"@, "umount"@][j],
        unmounting_all(places)[i][j].len() == 3 <==> j < 2,
        j < 2 ==> unmounting_all(places)[i][j][1] == "-u"@,
{
}

/// The remotes are the lines without the colons at their end, but for those of which
/// nothing is left, each once and in their order: `at` tells from which line each is.
pub proof fn every_named_line_is_a_remote(ls: Seq<Seq<char>>, k: int) -> (at: Seq<int>)
    requires
        0 <= k <= ls.len(),
    ensures
        at.len() == remotes_in(ls, k).len(),
        forall|i: int, j: int| 0 <= i < j < at.len() ==> at[i] < at[j],
        forall|i: int|
            0 <= i < at.len() ==> 0 <= #[trigger] at[i] < k && remotes_in(ls, k)[i]
                == trim_end_matches(ls[at[i]], ':') && remotes_in(ls, k)[i].len() > 0,
        forall|m: int|
            0 <= m < k && trim_end_matches(#[trigger] ls[m], ':').len() > 0 ==> at.contains(m),
    decreases k,
{
    if k == 0 {
        Seq::empty()
    } else {
        let before = every_named_line_is_a_remote(ls, k - 1);
        if trim_end_matches(ls[k - 1], ':').len() == 0 {
            before
        } else {
            let at = before.push(k - 1);
            assert forall|m: int|
                0 <= m < k && trim_end_matches(#[trigger] ls[m], ':').len() > 0 implies at.contains(
                m,
            ) by {
                if m == k - 1 {
                    assert(at[before.len() as int] == m);
                } else {
                    assert(before.contains(m));
                    let i = choose|i: int| 0 <= i < before.len() && before[i] == m;
                    assert(at[i] == m);
                }
            }
            at
        }
    }
}

/// A place is mounted wherever it is the second word of a line, whatever white space
/// stands around it.
pub proof fn second_word_of_any_line_counts(table: Seq<char>, i: int)
    requires
        0 <= i < lines(table).len(),
        words(lines(table)[i], true).len() >= 2,
    ensures
        is_mounted_by(table, words(lines(table)[i], true)[1]),
{
    assert(names_place(lines(table)[i], words(lines(table)[i], true)[1]));
}

/// Each stage of mounting has its own kind of event, and there are a hundred questions
/// while it waits.
pub proof fn stages_have_their_events(e: MountEventView, k: u32)
    ensures
        is_event_of(MountStage::Check, e) <==> e is Mounted,
        is_event_of(MountStage::Create, e) <==> e is Did,
        is_event_of(MountStage::Start, e) <==> e is Did,
        is_event_of(MountStage::Wait(k), e) <==> e is Mounted && k <= 99,
{
}

} // verus!
