//! Emit one logical message to several output targets at once: styled text
//! for people, JSON records for machines.

use vstd::prelude::*;
use crate::components::tree::{
    human_form,
    json_form,
    json_separator,
    leaves,
    lemma_plain_sink_keeps_leaves,
    Tree,
};
use crate::fmt::{lossy_text, string_from_utf8_lossy};

pub mod components;
pub mod error;
pub mod fmt;
pub mod human;
pub mod json;
pub mod logging;
pub mod style;

pub use error::Error;

verus! {

/// What can be printed: a value that stands for a component and can show it
/// to people and as JSON.
pub trait Render {
    /// The component that this value stands for.
    spec fn tree(&self) -> Tree;

    /// Shows the value to people: enqueues the commands of its component,
    /// in their order, behind all that the formatter holds already.
    ///
    /// Fails only where the worker has stopped, with a channel error, and
    /// then changes nothing.
    fn render_for_humans(&self, fmt: &mut human::Formatter) -> (r: Result<(), Error>)
        requires
            old(fmt)@.wf(),
        ensures
            final(fmt)@.wf(),
            final(fmt)@ == old(fmt)@.sent_all(human_form(self.tree())),
            old(fmt)@.open ==> r is Ok,
            !old(fmt)@.open ==> (r matches Err(Error::ChannelError(detail)) && detail@
                == human::disconnected()),
    ;

    /// Shows the value as JSON: enqueues the commands of its component, in
    /// their order, behind all that the formatter holds already.
    ///
    /// Fails only where there is something to enqueue and the worker has
    /// stopped, with a channel error, and then changes nothing.
    fn render_json(&self, fmt: &mut json::Formatter) -> (r: Result<(), Error>)
        requires
            old(fmt)@.wf(),
        ensures
            final(fmt)@.wf(),
            final(fmt)@ == old(fmt)@.sent_all(json_form(self.tree())),
            old(fmt)@.open || json_form(self.tree()).len() == 0 ==> r is Ok,
            !old(fmt)@.open && json_form(self.tree()).len() > 0 ==> (r matches Err(
                Error::ChannelError(detail),
            ) && detail@ == json::disconnected()),
    ;
}

/// A reference to a value that can be printed can be printed as the value.
impl<'a, T: Render> Render for &'a T {
    open spec fn tree(&self) -> Tree {
        (**self).tree()
    }

    fn render_for_humans(&self, fmt: &mut human::Formatter) -> (r: Result<(), Error>) {
        (*self).render_for_humans(fmt)
    }

    fn render_json(&self, fmt: &mut json::Formatter) -> (r: Result<(), Error>) {
        (*self).render_json(fmt)
    }
}

/// A string slice is printed as its text.
impl<'a> Render for &'a str {
    open spec fn tree(&self) -> Tree {
        Tree::Text(self@)
    }

    fn render_for_humans(&self, fmt: &mut human::Formatter) -> (r: Result<(), Error>) {
        proof {
            human::lemma_sent_one(old(fmt)@, human_form(self.tree()));
        }
        fmt.write(self.as_bytes_vec())
    }

    fn render_json(&self, fmt: &mut json::Formatter) -> (r: Result<(), Error>) {
        proof {
            json::lemma_sent_one(old(fmt)@, json_form(self.tree()));
        }
        fmt.write(self)
    }
}

/// A string is printed as its text.
impl Render for String {
    open spec fn tree(&self) -> Tree {
        Tree::Text(self@)
    }

    fn render_for_humans(&self, fmt: &mut human::Formatter) -> (r: Result<(), Error>) {
        proof {
            human::lemma_sent_one(old(fmt)@, human_form(self.tree()));
        }
        fmt.write(self.as_str().as_bytes_vec())
    }

    fn render_json(&self, fmt: &mut json::Formatter) -> (r: Result<(), Error>) {
        proof {
            json::lemma_sent_one(old(fmt)@, json_form(self.tree()));
        }
        fmt.write(self.as_str())
    }
}

/// The command that ends an item shown to people: a line feed.
pub open spec fn human_terminator() -> human::Command {
    human::Command::Write(seq![0x0Au8])
}

/// What a [`Target`] stands for: the state of its formatter, by kind.
pub enum TargetState {
    Human(human::FormatterState),
    Json(json::FormatterState),
}

impl TargetState {
    /// Whether the state is one that a formatter can be in.
    pub open spec fn wf(self) -> bool {
        match self {
            TargetState::Human(s) => s.wf(),
            TargetState::Json(s) => s.wf(),
        }
    }

    /// Whether the worker still takes commands.
    pub open spec fn is_open(self) -> bool {
        match self {
            TargetState::Human(s) => s.open,
            TargetState::Json(s) => s.open,
        }
    }

    /// Every byte that has reached the sink.
    pub open spec fn output(self) -> Seq<u8> {
        match self {
            TargetState::Human(s) => s.output,
            TargetState::Json(s) => s.output,
        }
    }

    /// The state after a component was printed: its commands in the form of
    /// the target's kind, then the terminator of that kind, a line feed for
    /// people and a separator for JSON.
    pub open spec fn printed(self, tree: Tree) -> TargetState {
        match self {
            TargetState::Human(s) => TargetState::Human(
                s.sent_all(human_form(tree)).sent(human_terminator()),
            ),
            TargetState::Json(s) => TargetState::Json(
                s.sent_all(json_form(tree)).sent(json_separator()),
            ),
        }
    }

    /// The state after a flush.
    pub open spec fn flushed(self) -> TargetState {
        match self {
            TargetState::Human(s) => TargetState::Human(s.flushed()),
            TargetState::Json(s) => TargetState::Json(s.flushed()),
        }
    }
}

/// The commands taken out of a target, by its kind.
pub enum Pending {
    Human(Vec<human::Message>),
    Json(Vec<json::Message>),
}

impl TargetState {
    /// Whether `taken` holds the commands that wait in this state, in their
    /// order and of its kind.
    pub open spec fn waits_for(self, taken: Pending) -> bool {
        match (self, taken) {
            (TargetState::Human(s), Pending::Human(m)) => human::commands_of(m@) == s.pending,
            (TargetState::Json(s), Pending::Json(m)) => json::commands_of(m@) == s.pending,
            _ => false,
        }
    }

    /// The state with nothing waiting, and all else as it is.
    pub open spec fn emptied(self) -> TargetState {
        match self {
            TargetState::Human(s) => TargetState::Human(
                human::FormatterState { pending: Seq::empty(), ..s },
            ),
            TargetState::Json(s) => TargetState::Json(
                json::FormatterState { pending: Seq::empty(), ..s },
            ),
        }
    }
}

enum InnerTarget {
    Human(human::Formatter),
    Json(json::Formatter),
}

/// One place to print to: a formatter, marked as human or JSON.
pub struct Target {
    inner: InnerTarget,
}

impl View for Target {
    type V = TargetState;

    closed spec fn view(&self) -> TargetState {
        match self.inner {
            InnerTarget::Human(f) => TargetState::Human(f@),
            InnerTarget::Json(f) => TargetState::Json(f@),
        }
    }
}

impl Target {
    /// Human readable output: mostly text, with styling where the sink takes it.
    pub fn human(f: human::Formatter) -> (t: Target)
        ensures
            t@ == TargetState::Human(f@),
    {
        Target { inner: InnerTarget::Human(f) }
    }

    /// JSON output, for machines.
    pub fn json(f: json::Formatter) -> (t: Target)
        ensures
            t@ == TargetState::Json(f@),
    {
        Target { inner: InnerTarget::Json(f) }
    }

    /// Prints one item: shows it in the form of the target's kind, then ends
    /// it with the terminator of that kind.
    ///
    /// Fails only where the worker has stopped, with a channel error, and
    /// then changes nothing.
    pub fn print<O: Render>(&mut self, item: &O) -> (r: Result<(), Error>)
        requires
            old(self)@.wf(),
        ensures
            final(self)@.wf(),
            final(self)@ == old(self)@.printed(item.tree()),
            old(self)@.is_open() ==> r is Ok,
            !old(self)@.is_open() ==> r matches Err(Error::ChannelError(_)),
    {
        match &mut self.inner {
            InnerTarget::Human(fmt) => {
                match item.render_for_humans(fmt) {
                    Err(e) => {
                        return Err(e);
                    },
                    Ok(_) => {},
                }
                let mut line: Vec<u8> = Vec::new();
                line.push(0x0Au8);
                assert(line@ =~= seq![0x0Au8]);
                fmt.write(line)
            },
            InnerTarget::Json(fmt) => {
                match item.render_json(fmt) {
                    Err(e) => {
                        return Err(e);
                    },
                    Ok(_) => {},
                }
                fmt.write_separator()
            },
        }
    }

    /// Waits until everything printed so far has reached the sink.
    ///
    /// Fails only where the worker has stopped, with a channel error, and
    /// then changes nothing.
    pub fn flush(&mut self) -> (r: Result<(), Error>)
        requires
            old(self)@.wf(),
        ensures
            final(self)@.wf(),
            final(self)@ == old(self)@.flushed(),
            old(self)@.is_open() ==> r is Ok,
            !old(self)@.is_open() ==> r matches Err(Error::ChannelError(_)),
    {
        match &mut self.inner {
            InnerTarget::Human(fmt) => fmt.flush(),
            InnerTarget::Json(fmt) => fmt.flush(),
        }
    }

    /// Takes out the commands that wait for the worker, in their order, and
    /// leaves none: for a worker that runs elsewhere.
    pub fn take_pending(&mut self) -> (taken: Pending)
        requires
            old(self)@.wf(),
        ensures
            final(self)@.wf(),
            old(self)@.waits_for(taken),
            final(self)@ == old(self)@.emptied(),
    {
        match &mut self.inner {
            InnerTarget::Human(fmt) => Pending::Human(fmt.take_pending()),
            InnerTarget::Json(fmt) => Pending::Json(fmt.take_pending()),
        }
    }

    /// Whether the worker still takes commands.
    pub fn is_open(&self) -> (open: bool)
        ensures
            open == self@.is_open(),
    {
        match &self.inner {
            InnerTarget::Human(fmt) => fmt.is_open(),
            InnerTarget::Json(fmt) => fmt.is_open(),
        }
    }

    /// A copy of every byte that has reached the sink so far.
    pub fn contents(&self) -> (bytes: Vec<u8>)
        ensures
            bytes@ == self@.output(),
    {
        match &self.inner {
            InnerTarget::Human(fmt) => fmt.contents(),
            InnerTarget::Json(fmt) => fmt.contents(),
        }
    }

    /// What has reached the sink so far, as text.
    pub fn to_string(&self) -> (text: String)
        ensures
            text@ == lossy_text(self@.output()),
    {
        string_from_utf8_lossy(self.contents().as_slice())
    }
}

/// Whether the first `n` of a run of targets all still take commands.
pub open spec fn all_open(targets: Seq<TargetState>, n: int) -> bool {
    forall|j: int| 0 <= j < n && j < targets.len() ==> (#[trigger] targets[j]).is_open()
}

/// Whether each of a run of targets is in a state that a target can be in.
pub open spec fn all_wf(targets: Seq<TargetState>) -> bool {
    forall|j: int| 0 <= j < targets.len() ==> (#[trigger] targets[j]).wf()
}

/// The targets after a component was printed to them in their order, up to
/// and with the first that has stopped: those before it hold the printed
/// item, it and those behind it are as they were.
pub open spec fn printed_to(targets: Seq<TargetState>, tree: Tree) -> Seq<TargetState> {
    Seq::new(
        targets.len(),
        |i: int|
            if all_open(targets, i + 1) {
                targets[i].printed(tree)
            } else {
                targets[i]
            },
    )
}

/// The targets after they were flushed in their order, up to and with the
/// first that has stopped: those before it are flushed, it and those behind
/// it are as they were.
pub open spec fn flushed_to(targets: Seq<TargetState>) -> Seq<TargetState> {
    Seq::new(
        targets.len(),
        |i: int|
            if all_open(targets, i + 1) {
                targets[i].flushed()
            } else {
                targets[i]
            },
    )
}

/// The targets to print to, in the order in which they were added.
pub struct Output {
    targets: Vec<Target>,
}

impl View for Output {
    type V = Seq<TargetState>;

    closed spec fn view(&self) -> Seq<TargetState> {
        self.targets@.map_values(|t: Target| t@)
    }
}

/// A new output, with no target yet.
pub fn new() -> (o: Output)
    ensures
        o@ == Seq::<TargetState>::empty(),
{
    let o = Output { targets: Vec::new() };
    assert(o@ =~= Seq::<TargetState>::empty());
    o
}

impl Output {
    /// The output with `target` behind all targets that it had.
    pub fn add_target(self, target: Target) -> (r: Result<Output, Error>)
        ensures
            r matches Ok(o) && o@ == self@.push(target@),
            all_wf(self@) && target@.wf() ==> (r matches Ok(o) && all_wf(o@)),
    {
        let mut this = self;
        this.targets.push(target);
        assert(this@ =~= self@.push(target@));
        Ok(this)
    }

    /// How many targets there are.
    pub fn len(&self) -> (n: usize)
        ensures
            n == self@.len(),
    {
        self.targets.len()
    }

    /// The target at `index`, counted from the first that was added.
    pub fn target(&self, index: usize) -> (t: &Target)
        requires
            index < self@.len(),
        ensures
            t@ == self@[index as int],
    {
        &self.targets[index]
    }

    /// Takes out the commands that wait at the target at `index`, in their
    /// order, and leaves none there; the other targets are as they were.
    pub fn take_pending(&mut self, index: usize) -> (taken: Pending)
        requires
            all_wf(old(self)@),
            index < old(self)@.len(),
        ensures
            all_wf(final(self)@),
            old(self)@[index as int].waits_for(taken),
            final(self)@ == old(self)@.update(index as int, old(self)@[index as int].emptied()),
    {
        let ghost before = self@;
        assert(before[index as int].wf());
        let taken = self.targets[index].take_pending();
        proof {
            assert(self@.len() == before.len());
            assert forall|j: int| 0 <= j < self@.len() implies (#[trigger] self@[j]) == before.update(
                index as int,
                before[index as int].emptied(),
            )[j] by {}
            assert(self@ =~= before.update(index as int, before[index as int].emptied()));
        }
        taken
    }

    /// Prints one item to every target, in the order in which they were
    /// added.
    ///
    /// The first target that fails ends the call with its error: the targets
    /// before it hold the item, it and those behind it are as they were. A
    /// target fails only where its worker has stopped.
    pub fn print<O: Render>(&mut self, item: O) -> (r: Result<(), Error>)
        requires
            all_wf(old(self)@),
        ensures
            all_wf(final(self)@),
            final(self)@ == printed_to(old(self)@, item.tree()),
            all_open(old(self)@, old(self)@.len() as int) ==> r is Ok,
            !all_open(old(self)@, old(self)@.len() as int) ==> r matches Err(
                Error::ChannelError(_),
            ),
    {
        let ghost before = self@;
        let ghost tree = item.tree();
        let mut i: usize = 0;
        while i < self.targets.len()
            invariant
                0 <= i <= before.len(),
                self@.len() == before.len(),
                before == old(self)@,
                all_wf(before),
                all_wf(self@),
                tree == item.tree(),
                all_open(before, i as int),
                forall|j: int| 0 <= j < i ==> (#[trigger] self@[j]) == before[j].printed(tree),
                forall|j: int| i <= j < before.len() ==> (#[trigger] self@[j]) == before[j],
            decreases before.len() - i,
        {
            let ghost now = self@;
            assert(now[i as int].wf());
            let step = self.targets[i].print(&item);
            proof {
                assert(self@.len() == now.len());
                assert forall|j: int| 0 <= j < self@.len() && j != i implies (#[trigger] self@[j])
                    == now[j] by {}
                assert(self@[i as int] == before[i as int].printed(tree));
            }
            match step {
                Err(e) => {
                    proof {
                        assert(!before[i as int].is_open());
                        assert(before[i as int].printed(tree) == before[i as int]);
                        assert forall|j: int| 0 <= j < before.len() implies (#[trigger] self@[j])
                            == printed_to(before, tree)[j] by {
                            if j < i {
                                assert(all_open(before, j + 1));
                            } else {
                                assert(!all_open(before, j + 1));
                            }
                        }
                        assert(self@ =~= printed_to(before, tree));
                        assert(!all_open(before, before.len() as int));
                    }
                    return Err(e);
                },
                Ok(_) => {},
            }
            i = i + 1;
        }
        proof {
            assert forall|j: int| 0 <= j < before.len() implies (#[trigger] self@[j]) == printed_to(before, tree)[j] by {
                assert(all_open(before, j + 1));
            }
            assert(self@ =~= printed_to(before, tree));
        }
        Ok(())
    }

    /// Waits until everything printed so far has reached the sink of every
    /// target, in the order in which they were added.
    ///
    /// The first target that fails ends the call with its error: the targets
    /// before it are flushed, it and those behind it are as they were. A
    /// target fails only where its worker has stopped.
    pub fn flush(&mut self) -> (r: Result<(), Error>)
        requires
            all_wf(old(self)@),
        ensures
            all_wf(final(self)@),
            final(self)@ == flushed_to(old(self)@),
            all_open(old(self)@, old(self)@.len() as int) ==> r is Ok,
            !all_open(old(self)@, old(self)@.len() as int) ==> r matches Err(
                Error::ChannelError(_),
            ),
    {
        let ghost before = self@;
        let mut i: usize = 0;
        while i < self.targets.len()
            invariant
                0 <= i <= before.len(),
                self@.len() == before.len(),
                before == old(self)@,
                all_wf(before),
                all_wf(self@),
                all_open(before, i as int),
                forall|j: int| 0 <= j < i ==> (#[trigger] self@[j]) == before[j].flushed(),
                forall|j: int| i <= j < before.len() ==> (#[trigger] self@[j]) == before[j],
            decreases before.len() - i,
        {
            let ghost now = self@;
            assert(now[i as int].wf());
            let step = self.targets[i].flush();
            proof {
                assert(self@.len() == now.len());
                assert forall|j: int| 0 <= j < self@.len() && j != i implies (#[trigger] self@[j])
                    == now[j] by {}
                assert(self@[i as int] == before[i as int].flushed());
            }
            match step {
                Err(e) => {
                    proof {
                        assert(!before[i as int].is_open());
                        assert(before[i as int].flushed() == before[i as int]);
                        assert forall|j: int| 0 <= j < before.len() implies (#[trigger] self@[j])
                            == flushed_to(before)[j] by {
                            if j < i {
                                assert(all_open(before, j + 1));
                            } else {
                                assert(!all_open(before, j + 1));
                            }
                        }
                        assert(self@ =~= flushed_to(before));
                        assert(!all_open(before, before.len() as int));
                    }
                    return Err(e);
                },
                Ok(_) => {},
            }
            i = i + 1;
        }
        proof {
            assert forall|j: int| 0 <= j < before.len() implies (#[trigger] self@[j]) == flushed_to(before)[j] by {
                assert(all_open(before, j + 1));
            }
            assert(self@ =~= flushed_to(before));
        }
        Ok(())
    }
}

/// The state of a target after a run of components was printed to it, one
/// print for each, in their order.
pub open spec fn printed_all(target: TargetState, trees: Seq<Tree>) -> TargetState
    decreases trees.len(),
{
    if trees.len() == 0 {
        target
    } else {
        printed_all(target, trees.drop_last()).printed(trees.last())
    }
}

/// The bytes of a run of texts, each followed by a line feed.
pub open spec fn lines(texts: Seq<Seq<char>>) -> Seq<u8>
    decreases texts.len(),
{
    if texts.len() == 0 {
        Seq::empty()
    } else {
        lines(texts.drop_last()) + vstd::utf8::encode_utf8(texts.last()) + seq![0x0Au8]
    }
}

/// A run of texts as components.
pub open spec fn text_leaves(texts: Seq<Seq<char>>) -> Seq<Tree> {
    texts.map_values(|t: Seq<char>| Tree::Text(t))
}

/// The commands that printing a run of texts enqueues at a human target.
pub open spec fn text_commands(texts: Seq<Seq<char>>) -> Seq<human::Command>
    decreases texts.len(),
{
    if texts.len() == 0 {
        Seq::empty()
    } else {
        text_commands(texts.drop_last()) + seq![
            human::Command::Write(vstd::utf8::encode_utf8(texts.last())),
            human_terminator(),
        ]
    }
}

proof fn lemma_text_commands(state: human::FormatterState, texts: Seq<Seq<char>>)
    requires
        state.open,
    ensures
        printed_all(TargetState::Human(state), text_leaves(texts)) == TargetState::Human(
            state.sent_all(text_commands(texts)),
        ),
        human::effects(state.ansi, text_commands(texts)) == lines(texts),
    decreases texts.len(),
{
    let leaves = text_leaves(texts);
    if texts.len() == 0 {
        human::lemma_sent_none(state);
    } else {
        let rest = texts.drop_last();
        let last = texts.last();
        lemma_text_commands(state, rest);
        assert(leaves.drop_last() =~= text_leaves(rest));
        assert(leaves.last() == Tree::Text(last));
        let write = human::Command::Write(vstd::utf8::encode_utf8(last));
        let before = state.sent_all(text_commands(rest));
        human::lemma_sent_one(before, human_form(Tree::Text(last)));
        human::lemma_sent_then_one(state, text_commands(rest), write);
        human::lemma_sent_then_one(state, text_commands(rest).push(write), human_terminator());
        assert(text_commands(rest).push(write).push(human_terminator()) =~= text_commands(texts));
        let pair = seq![write, human_terminator()];
        human::lemma_effects_concat(state.ansi, text_commands(rest), pair);
        human::lemma_effects_push(state.ansi, seq![write], human_terminator());
        assert(seq![write].push(human_terminator()) =~= pair);
        human::lemma_effects_push(state.ansi, Seq::empty(), write);
        assert(Seq::<human::Command>::empty().push(write) =~= seq![write]);
        assert(human::effects(state.ansi, pair) =~= vstd::utf8::encode_utf8(last) + seq![0x0Au8]);
        assert(lines(texts) =~= lines(rest) + (vstd::utf8::encode_utf8(last) + seq![0x0Au8]));
    }
}

/// Text comes out byte for byte. Print any run of texts to a human target,
/// one print for each, and flush: what the sink has gained, behind what was
/// on its way before, is the texts in their order, each followed by one line
/// feed, and nothing else, whether the sink takes styles or not.
pub proof fn lemma_text_comes_out_whole(state: human::FormatterState, texts: Seq<Seq<char>>)
    requires
        state.open,
    ensures
        printed_all(TargetState::Human(state), text_leaves(texts)).flushed().output()
            == state.flushed().output + lines(texts),
{
    lemma_text_commands(state, texts);
    human::lemma_effects_concat(state.ansi, state.pending, text_commands(texts));
    assert(state.sent_all(text_commands(texts)).flushed().output =~= state.flushed().output
        + lines(texts));
}

/// The bytes of the text in a run of components, each component followed by
/// a line feed.
pub open spec fn leaf_lines(trees: Seq<Tree>) -> Seq<u8>
    decreases trees.len(),
{
    if trees.len() == 0 {
        Seq::empty()
    } else {
        leaf_lines(trees.drop_last()) + leaves(trees.last()) + seq![0x0Au8]
    }
}

/// The commands that printing a run of components enqueues at a human
/// target.
pub open spec fn print_commands(trees: Seq<Tree>) -> Seq<human::Command>
    decreases trees.len(),
{
    if trees.len() == 0 {
        Seq::empty()
    } else {
        print_commands(trees.drop_last()) + human_form(trees.last()) + seq![human_terminator()]
    }
}

proof fn lemma_print_commands(state: human::FormatterState, trees: Seq<Tree>)
    requires
        state.open,
    ensures
        printed_all(TargetState::Human(state), trees) == TargetState::Human(
            state.sent_all(print_commands(trees)),
        ),
        !state.ansi ==> human::effects(false, print_commands(trees)) == leaf_lines(trees),
    decreases trees.len(),
{
    if trees.len() == 0 {
        human::lemma_sent_none(state);
    } else {
        let rest = trees.drop_last();
        let last = trees.last();
        lemma_print_commands(state, rest);
        human::lemma_sent_twice(state, print_commands(rest), human_form(last));
        human::lemma_sent_then_one(
            state,
            print_commands(rest) + human_form(last),
            human_terminator(),
        );
        assert((print_commands(rest) + human_form(last)).push(human_terminator())
            =~= print_commands(trees));
        if !state.ansi {
            lemma_plain_sink_keeps_leaves(last);
            human::lemma_effects_concat(false, print_commands(rest), human_form(last));
            human::lemma_effects_push(
                false,
                print_commands(rest) + human_form(last),
                human_terminator(),
            );
            assert(leaf_lines(trees) =~= leaf_lines(rest) + leaves(last) + seq![0x0Au8]);
        }
    }
}

/// On a sink that drops styles, every component comes out as its text.
/// Print any run of components to such a human target, one print for each,
/// and flush: what the sink has gained, behind what was on its way before,
/// is the bytes of their leaves in their order, with one line feed behind
/// each printed component, and nothing else.
pub proof fn lemma_leaves_come_out_whole(state: human::FormatterState, trees: Seq<Tree>)
    requires
        state.open,
        !state.ansi,
    ensures
        printed_all(TargetState::Human(state), trees).flushed().output() == state.flushed().output
            + leaf_lines(trees),
{
    lemma_print_commands(state, trees);
    human::lemma_effects_concat(false, state.pending, print_commands(trees));
    assert(state.sent_all(print_commands(trees)).flushed().output =~= state.flushed().output
        + leaf_lines(trees));
}

} // verus!
