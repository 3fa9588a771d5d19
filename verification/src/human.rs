//! Human output: styled text, written by a worker that alone owns its sink.
//!
//! A [`Formatter`] is the way to a worker. Writing, styling and resetting only
//! enqueue a command; the worker takes the commands in the order in which they
//! were enqueued. [`Formatter::flush`] is the one call that waits: when it
//! returns, every command enqueued before it has reached the sink.
//!
//! Nobody but the worker touches the sink, and the worker does nothing but
//! take commands from the queue. Here the worker takes its turn while the
//! formatter waits for it, in [`Formatter::flush`] and [`Formatter::close`].
//! A worker on a thread of its own is served the same commands by
//! [`Formatter::take_pending`] and [`Worker::handle`]: what a command does,
//! and what is answered, is decided in one place for both.

use vstd::prelude::*;
use vstd::string::StringExecFns;
use crate::error::Error;
use crate::fmt::{reset_bytes, style_bytes, TerminalFormatter};
use crate::style::Style;
use crate::{Target, TargetState};
use crate::fmt::{lossy_text, string_from_utf8_lossy};

verus! {

/// A command for the worker.
#[derive(Debug)]
pub enum Message {
    /// Append these bytes to the sink.
    Write(Vec<u8>),
    /// Tell the sink a whole style, in one call.
    SetColor(Style),
    /// Clear every style.
    ResetStyle,
    /// Hand on everything held back, then answer [`Response::Flushed`].
    Flush,
    /// Stop.
    Exit,
}

/// What a worker answers.
#[derive(Debug)]
pub enum Response {
    /// The sink was opened and the worker takes commands.
    StartedSuccessfully,
    /// The sink could not be opened; no worker runs.
    Error(Error),
    /// Everything enqueued before the flush has reached the sink.
    Flushed,
}

/// A command, as a value of specifications.
pub enum Command {
    Write(Seq<u8>),
    SetColor(Style),
    ResetStyle,
    Flush,
    Exit,
}

impl View for Message {
    type V = Command;

    open spec fn view(&self) -> Command {
        match self {
            Message::Write(data) => Command::Write(data@),
            Message::SetColor(style) => Command::SetColor(*style),
            Message::ResetStyle => Command::ResetStyle,
            Message::Flush => Command::Flush,
            Message::Exit => Command::Exit,
        }
    }
}

/// The bytes that one command appends to a sink.
pub open spec fn effect(ansi: bool, command: Command) -> Seq<u8> {
    match command {
        Command::Write(data) => data,
        Command::SetColor(style) => style_bytes(ansi, style),
        Command::ResetStyle => reset_bytes(ansi),
        Command::Flush => Seq::empty(),
        Command::Exit => Seq::empty(),
    }
}

/// The bytes that a run of commands appends to a sink, in their order.
pub open spec fn effects(ansi: bool, commands: Seq<Command>) -> Seq<u8>
    decreases commands.len(),
{
    if commands.len() == 0 {
        Seq::empty()
    } else {
        effects(ansi, commands.drop_last()) + effect(ansi, commands.last())
    }
}

/// The views of a run of messages.
pub open spec fn commands_of(messages: Seq<Message>) -> Seq<Command> {
    messages.map_values(|m: Message| m@)
}

/// Whether a run of commands holds no [`Command::Exit`].
pub open spec fn no_exit(commands: Seq<Command>) -> bool {
    forall|i: int| 0 <= i < commands.len() ==> !(#[trigger] commands[i] is Exit)
}

/// `effects` of a run with one more command at its end.
pub proof fn lemma_effects_push(ansi: bool, commands: Seq<Command>, command: Command)
    ensures
        effects(ansi, commands.push(command)) == effects(ansi, commands) + effect(ansi, command),
{
    assert(commands.push(command).drop_last() == commands);
}

/// `effects` of two runs, one after the other.
pub proof fn lemma_effects_concat(ansi: bool, first: Seq<Command>, second: Seq<Command>)
    ensures
        effects(ansi, first + second) == effects(ansi, first) + effects(ansi, second),
    decreases second.len(),
{
    if second.len() == 0 {
        assert(first + second == first);
    } else {
        lemma_effects_concat(ansi, first, second.drop_last());
        assert((first + second).drop_last() == first + second.drop_last());
        assert((first + second).last() == second.last());
    }
}

/// The worker of a human formatter: the one owner of a sink.
pub struct Worker {
    sink: TerminalFormatter,
    running: bool,
}

impl Worker {
    /// Every byte that has reached the sink.
    pub closed spec fn output(&self) -> Seq<u8> {
        self.sink.bytes()
    }

    /// Whether the sink writes styles as escape codes.
    pub closed spec fn is_ansi(&self) -> bool {
        self.sink.is_ansi()
    }

    /// Whether the worker still takes commands.
    pub closed spec fn is_running(&self) -> bool {
        self.running
    }

    /// Starts a worker on the outcome of opening its sink, and says what it
    /// reports back: success with a running worker, or the failure and no
    /// worker.
    pub fn start(init: Result<TerminalFormatter, Error>) -> (r: (Option<Worker>, Response))
        ensures
            match init {
                Ok(sink) => {
                    &&& r.0 matches Some(w)
                    &&& w.output() == sink.bytes()
                    &&& w.is_ansi() == sink.is_ansi()
                    &&& w.is_running()
                    &&& r.1 is StartedSuccessfully
                },
                Err(e) => r.0 is None && r.1 == Response::Error(e),
            },
    {
        match init {
            Ok(sink) => (Some(Worker { sink, running: true }), Response::StartedSuccessfully),
            Err(e) => (None, Response::Error(e)),
        }
    }

    /// Takes one command, or learns with `None` that no more will come.
    ///
    /// A running worker applies the command to its sink; it answers a flush
    /// with [`Response::Flushed`], and stops on [`Message::Exit`] and on
    /// `None`. A worker that has stopped ignores everything.
    pub fn handle(&mut self, message: Option<&Message>) -> (reply: Option<Response>)
        ensures
            final(self).is_ansi() == old(self).is_ansi(),
            !old(self).is_running() ==> {
                &&& !final(self).is_running()
                &&& final(self).output() == old(self).output()
                &&& reply is None
            },
            old(self).is_running() ==> match message {
                Some(m) => {
                    &&& final(self).output() == old(self).output() + effect(old(self).is_ansi(), m@)
                    &&& final(self).is_running() == !(m@ is Exit)
                    &&& (m@ is Flush ==> reply matches Some(Response::Flushed))
                    &&& (!(m@ is Flush) ==> reply is None)
                },
                None => {
                    &&& final(self).output() == old(self).output()
                    &&& !final(self).is_running()
                    &&& reply is None
                },
            },
    {
        if !self.running {
            return None;
        }
        match message {
            Some(Message::Write(data)) => {
                let _ = self.sink.write(data.as_slice());
                None
            },
            Some(Message::SetColor(style)) => {
                let _ = self.sink.set_color(style);
                None
            },
            Some(Message::ResetStyle) => {
                let _ = self.sink.reset();
                None
            },
            Some(Message::Flush) => {
                let _ = self.sink.flush();
                Some(Response::Flushed)
            },
            Some(Message::Exit) => {
                self.running = false;
                None
            },
            None => {
                self.running = false;
                None
            },
        }
    }

    /// A copy of every byte that has reached the sink.
    pub fn contents(&self) -> (bytes: Vec<u8>)
        ensures
            bytes@ == self.output(),
    {
        self.sink.contents()
    }

    /// Whether the worker still takes commands.
    pub fn running(&self) -> (yes: bool)
        ensures
            yes == self.is_running(),
    {
        self.running
    }

    /// Takes out every byte that has reached the sink, and leaves it empty:
    /// for a worker whose sink is a stage on the way to a stream.
    pub fn take_output(&mut self) -> (bytes: Vec<u8>)
        ensures
            bytes@ == old(self).output(),
            final(self).output() == Seq::<u8>::empty(),
            final(self).is_ansi() == old(self).is_ansi(),
            final(self).is_running() == old(self).is_running(),
    {
        self.sink.take()
    }

    /// Gives up the sink.
    pub fn into_sink(self) -> (sink: TerminalFormatter)
        ensures
            sink.bytes() == self.output(),
            sink.is_ansi() == self.is_ansi(),
    {
        self.sink
    }
}

/// The commands that a running worker takes from a run: all of them up to
/// and with the first [`Command::Exit`], where there is one.
pub open spec fn until_exit(commands: Seq<Command>) -> Seq<Command>
    decreases commands.len(),
{
    if commands.len() == 0 {
        commands
    } else if commands.first() is Exit {
        seq![commands.first()]
    } else {
        seq![commands.first()] + until_exit(commands.drop_first())
    }
}

/// How many flushes a run of commands asks for.
pub open spec fn flushes(commands: Seq<Command>) -> nat {
    commands.filter(|c: Command| c is Flush).len()
}

/// A run without an exit is taken whole.
pub proof fn lemma_until_exit_whole(commands: Seq<Command>)
    requires
        no_exit(commands),
    ensures
        until_exit(commands) == commands,
    decreases commands.len(),
{
    if commands.len() > 0 {
        let rest = commands.drop_first();
        assert forall|i: int| 0 <= i < rest.len() implies !(#[trigger] rest[i] is Exit) by {
            assert(rest[i] == commands[i + 1]);
        }
        lemma_until_exit_whole(rest);
        assert(seq![commands.first()] + rest == commands);
    }
}

/// A run whose first exit stands at `k` is taken up to and with `k`.
pub proof fn lemma_until_exit_at(commands: Seq<Command>, k: int)
    requires
        0 <= k < commands.len(),
        no_exit(commands.take(k)),
        commands[k] is Exit,
    ensures
        until_exit(commands) == commands.take(k + 1),
    decreases k,
{
    if k == 0 {
        assert(commands.take(1) == seq![commands.first()]);
    } else {
        let rest = commands.drop_first();
        assert(commands.take(k)[0] == commands[0]);
        assert forall|i: int| 0 <= i < rest.take(k - 1).len() implies !(
        #[trigger] rest.take(k - 1)[i] is Exit) by {
            assert(rest.take(k - 1)[i] == commands.take(k)[i + 1]);
        }
        lemma_until_exit_at(rest, k - 1);
        assert(seq![commands.first()] + rest.take(k) == commands.take(k + 1));
    }
}

impl Worker {
    /// Takes every command of `inbox`, in order, and empties it.
    ///
    /// A running worker applies the commands up to and with the first exit,
    /// and answers each flush among them; what stands behind an exit is
    /// dropped. A worker that has stopped drops them all.
    pub fn serve(&mut self, inbox: &mut Vec<Message>) -> (replies: Vec<Response>)
        ensures
            final(inbox)@.len() == 0,
            final(self).is_ansi() == old(self).is_ansi(),
            forall|i: int| 0 <= i < replies@.len() ==> #[trigger] replies@[i] is Flushed,
            old(self).is_running() ==> {
                &&& final(self).output() == old(self).output() + effects(
                    old(self).is_ansi(),
                    until_exit(commands_of(old(inbox)@)),
                )
                &&& final(self).is_running() == no_exit(commands_of(old(inbox)@))
                &&& replies@.len() == flushes(until_exit(commands_of(old(inbox)@)))
            },
            !old(self).is_running() ==> {
                &&& final(self).output() == old(self).output()
                &&& !final(self).is_running()
                &&& replies@.len() == 0
            },
    {
        let ghost commands = commands_of(inbox@);
        let ghost ansi = self.is_ansi();
        let mut replies: Vec<Response> = Vec::new();
        let mut i: usize = 0;
        proof {
            assert(commands.take(0) == Seq::<Command>::empty());
            assert(Seq::<Command>::empty().filter(|c: Command| c is Flush).len() == 0) by {
                reveal(Seq::filter);
            }
        }
        while i < inbox.len() && self.running
            invariant
                0 <= i <= inbox@.len(),
                commands == commands_of(inbox@),
                inbox@ == old(inbox)@,
                self.is_ansi() == ansi,
                ansi == old(self).is_ansi(),
                old(self).is_running() ==> self.output() == old(self).output() + effects(
                    ansi,
                    commands.take(i as int),
                ),
                self.running == self.is_running(),
                !old(self).is_running() ==> !self.running && self.output() == old(self).output()
                    && replies@.len() == 0,
                self.running ==> no_exit(commands.take(i as int)),
                old(self).is_running() && !self.running ==> {
                    &&& i > 0
                    &&& no_exit(commands.take(i - 1))
                    &&& commands[i - 1] is Exit
                },
                old(self).is_running() ==> replies@.len() == flushes(commands.take(i as int)),
                forall|k: int| 0 <= k < replies@.len() ==> #[trigger] replies@[k] is Flushed,
            decreases inbox@.len() - i,
        {
            let ghost before = commands.take(i as int);
            let reply = self.handle(Some(&inbox[i]));
            proof {
                let c = commands[i as int];
                assert(c == inbox@[i as int]@);
                assert(commands.take(i + 1) == before.push(c));
                lemma_effects_push(ansi, before, c);
                assert(before.push(c).drop_last() == before);
                reveal(Seq::filter);
                assert(commands.take(i + 1).take(i as int) == before);
                if !(c is Exit) {
                    assert forall|k: int| 0 <= k < before.push(c).len() implies !(
                    #[trigger] before.push(c)[k] is Exit) by {
                        if k < before.len() {
                            assert(before.push(c)[k] == before[k]);
                        }
                    }
                }
            }
            match reply {
                Some(r) => {
                    replies.push(r);
                },
                None => {},
            }
            i = i + 1;
        }
        proof {
            if old(self).is_running() {
                if self.running {
                    assert(commands.take(i as int) == commands);
                    lemma_until_exit_whole(commands);
                } else {
                    lemma_until_exit_at(commands, i - 1);
                    assert(!no_exit(commands));
                }
            }
        }
        inbox.clear();
        replies
    }
}

/// What a [`Formatter`] stands for: the commands enqueued and not yet taken,
/// what has reached the sink, and whether the worker still runs.
pub struct FormatterState {
    /// The commands enqueued and not yet taken by the worker, oldest first.
    pub pending: Seq<Command>,
    /// Every byte that has reached the sink.
    pub output: Seq<u8>,
    /// Whether the sink writes styles as escape codes.
    pub ansi: bool,
    /// Whether the worker still takes commands.
    pub open: bool,
}

impl FormatterState {
    /// What holds of every formatter: no exit waits in the queue, and nothing
    /// waits for a worker that has stopped.
    pub open spec fn wf(self) -> bool {
        &&& no_exit(self.pending)
        &&& !self.open ==> self.pending.len() == 0
    }

    /// The state after `command` was sent: enqueued behind all others, or
    /// refused where the worker has stopped.
    pub open spec fn sent(self, command: Command) -> FormatterState {
        if self.open {
            FormatterState { pending: self.pending.push(command), ..self }
        } else {
            self
        }
    }

    /// The state after a run of commands was sent, in their order.
    pub open spec fn sent_all(self, commands: Seq<Command>) -> FormatterState {
        if self.open {
            FormatterState { pending: self.pending + commands, ..self }
        } else {
            self
        }
    }

    /// The state after a flush: everything enqueued has reached the sink.
    pub open spec fn flushed(self) -> FormatterState {
        if self.open {
            FormatterState {
                pending: Seq::empty(),
                output: self.output + effects(self.ansi, self.pending),
                ..self
            }
        } else {
            self
        }
    }

    /// The state after the worker was told to stop: everything enqueued has
    /// reached the sink, and nothing more is taken.
    pub open spec fn shut(self) -> FormatterState {
        FormatterState { open: false, ..self.flushed() }
    }
}

/// Sending a run of one command is sending that command.
pub proof fn lemma_sent_one(state: FormatterState, commands: Seq<Command>)
    requires
        commands.len() == 1,
    ensures
        state.sent_all(commands) == state.sent(commands[0]),
{
    assert(state.pending + commands =~= state.pending.push(commands[0]));
}

/// Sending nothing changes nothing.
pub proof fn lemma_sent_none(state: FormatterState)
    ensures
        state.sent_all(Seq::empty()) == state,
{
    assert(state.pending + Seq::<Command>::empty() =~= state.pending);
}

/// Sending one run and then another is sending the two as one.
pub proof fn lemma_sent_twice(state: FormatterState, first: Seq<Command>, second: Seq<Command>)
    ensures
        state.sent_all(first).sent_all(second) == state.sent_all(first + second),
{
    assert((state.pending + first) + second =~= state.pending + (first + second));
}

/// Sending a run and then one command is sending the run with the command
/// at its end.
pub proof fn lemma_sent_then_one(state: FormatterState, first: Seq<Command>, command: Command)
    ensures
        state.sent_all(first).sent(command) == state.sent_all(first.push(command)),
{
    assert((state.pending + first).push(command) =~= state.pending + first.push(command));
}

/// Flush is a barrier. A command sent before a flush has taken effect on the
/// sink when the flush returns, behind everything sent before it, and
/// nothing is left waiting. A command sent after the flush has returned has
/// not reached the sink: it waits, alone, for the next flush.
pub proof fn lemma_flush_is_barrier(state: FormatterState, command: Command)
    requires
        state.open,
    ensures
        state.sent(command).flushed().output == state.flushed().output + effect(
            state.ansi,
            command,
        ),
        state.sent(command).flushed().pending == Seq::<Command>::empty(),
        state.flushed().sent(command).output == state.flushed().output,
        state.flushed().sent(command).pending == seq![command],
{
    lemma_effects_push(state.ansi, state.pending, command);
    assert(state.sent(command).flushed().output =~= state.flushed().output + effect(
        state.ansi,
        command,
    ));
    assert(state.flushed().sent(command).pending =~= seq![command]);
}

/// The detail of the error for a command that found the worker stopped.
pub open spec fn disconnected() -> Seq<char> {
    "sending on a disconnected channel"@
}

/// The detail of the error for an answer other than the one awaited.
pub open spec fn unexpected(reply: Option<Response>) -> Seq<char> {
    match reply {
        Some(Response::StartedSuccessfully) => "unexpected message StartedSuccessfully"@,
        Some(Response::Flushed) => "unexpected message Flushed"@,
        Some(Response::Error(e)) => "unexpected message Error: "@ + Error::spec_message(
            e.spec_kind(),
            e.spec_detail(),
        ),
        None => "unexpected message: the worker is gone"@,
    }
}

/// The error for an answer other than the one awaited.
fn unexpected_reply(reply: Option<Response>) -> (e: Error)
    ensures
        e matches Error::WorkerError(detail) && detail@ == unexpected(reply),
{
    match reply {
        Some(Response::StartedSuccessfully) => Error::worker_error(
            String::from_str("unexpected message StartedSuccessfully"),
        ),
        Some(Response::Flushed) => Error::worker_error(
            String::from_str("unexpected message Flushed"),
        ),
        Some(Response::Error(e)) => Error::worker_error(
            String::from_str("unexpected message Error: ").concat(e.message().as_str()),
        ),
        None => Error::worker_error(String::from_str("unexpected message: the worker is gone")),
    }
}

/// What a flush returns for the worker's answer, `None` standing for no
/// answer at all: success for [`Response::Flushed`], a worker error for
/// anything else.
pub fn flush_outcome(reply: Option<Response>) -> (r: Result<(), Error>)
    ensures
        reply matches Some(Response::Flushed) ==> r is Ok,
        !(reply matches Some(Response::Flushed)) ==> (r matches Err(Error::WorkerError(detail))
            && detail@ == unexpected(reply)),
{
    match reply {
        Some(Response::Flushed) => Ok(()),
        other => Err(unexpected_reply(other)),
    }
}

/// The way to the worker of a human sink.
pub struct Formatter {
    queue: Vec<Message>,
    worker: Worker,
}

impl View for Formatter {
    type V = FormatterState;

    closed spec fn view(&self) -> FormatterState {
        FormatterState {
            pending: commands_of(self.queue@),
            output: self.worker.output(),
            ansi: self.worker.is_ansi(),
            open: self.worker.is_running(),
        }
    }
}

impl Formatter {

    /// Makes the formatter of a worker from what the worker reported when it
    /// was started, `None` standing for no report at all.
    ///
    /// The reported failure is handed on as it is. A formatter is made only
    /// for a reported success with a worker; anything else is a worker error.
    pub fn connect(worker: Option<Worker>, report: Option<Response>) -> (r: Result<
        Formatter,
        Error,
    >)
        ensures
            match (worker, report) {
                (_, Some(Response::Error(e))) => r == Err::<Formatter, Error>(e),
                (Some(w), Some(Response::StartedSuccessfully)) => {
                    &&& r matches Ok(f)
                    &&& f@.wf()
                    &&& f@ == FormatterState {
                        pending: Seq::empty(),
                        output: w.output(),
                        ansi: w.is_ansi(),
                        open: w.is_running(),
                    }
                },
                _ => r matches Err(Error::WorkerError(detail)) && detail@ == unexpected(report),
            },
    {
        match report {
            Some(Response::Error(e)) => Err(e),
            Some(Response::StartedSuccessfully) => match worker {
                Some(w) => {
                    let f = Formatter { queue: Vec::new(), worker: w };
                    assert(f@.pending =~= Seq::empty());
                    Ok(f)
                },
                None => Err(unexpected_reply(Some(Response::StartedSuccessfully))),
            },
            other => Err(unexpected_reply(other)),
        }
    }

    /// Starts a worker on the outcome of opening its sink and waits for its
    /// report: a formatter with nothing enqueued where the sink was opened,
    /// the failure where it was not.
    pub fn init_with(init: Result<TerminalFormatter, Error>) -> (r: Result<Formatter, Error>)
        ensures
            match init {
                Ok(sink) => {
                    &&& r matches Ok(f)
                    &&& f@.wf()
                    &&& f@ == FormatterState {
                        pending: Seq::empty(),
                        output: sink.bytes(),
                        ansi: sink.is_ansi(),
                        open: true,
                    }
                },
                Err(e) => r == Err::<Formatter, Error>(e),
            },
    {
        let (worker, report) = Worker::start(init);
        Formatter::connect(worker, Some(report))
    }

    fn send(&mut self, message: Message) -> (r: Result<(), Error>)
        requires
            old(self)@.wf(),
            !(message@ is Exit),
        ensures
            final(self)@.wf(),
            final(self)@ == old(self)@.sent(message@),
            old(self)@.open ==> r is Ok,
            !old(self)@.open ==> (r matches Err(Error::ChannelError(detail)) && detail@
                == disconnected()),
    {
        if !self.worker.running {
            return Err(Error::channel_error(String::from_str("sending on a disconnected channel")));
        }
        let ghost before = commands_of(self.queue@);
        self.queue.push(message);
        proof {
            assert(commands_of(self.queue@) =~= before.push(message@));
        }
        Ok(())
    }

    /// Enqueues bytes for the sink.
    ///
    /// Fails only where the worker has stopped, with a channel error, and
    /// then changes nothing. Whether the sink takes the bytes is not waited
    /// for.
    pub fn write(&mut self, data: Vec<u8>) -> (r: Result<(), Error>)
        requires
            old(self)@.wf(),
        ensures
            final(self)@.wf(),
            final(self)@ == old(self)@.sent(Command::Write(data@)),
            old(self)@.open ==> r is Ok,
            !old(self)@.open ==> (r matches Err(Error::ChannelError(detail)) && detail@
                == disconnected()),
    {
        self.send(Message::Write(data))
    }

    /// Enqueues a style for the sink: all of it in one command.
    pub fn set_color(&mut self, spec: &Style) -> (r: Result<(), Error>)
        requires
            old(self)@.wf(),
        ensures
            final(self)@.wf(),
            final(self)@ == old(self)@.sent(Command::SetColor(*spec)),
            old(self)@.open ==> r is Ok,
            !old(self)@.open ==> (r matches Err(Error::ChannelError(detail)) && detail@
                == disconnected()),
    {
        self.send(Message::SetColor(*spec))
    }

    /// Enqueues a reset of colour and styling.
    pub fn reset(&mut self) -> (r: Result<(), Error>)
        requires
            old(self)@.wf(),
        ensures
            final(self)@.wf(),
            final(self)@ == old(self)@.sent(Command::ResetStyle),
            old(self)@.open ==> r is Ok,
            !old(self)@.open ==> (r matches Err(Error::ChannelError(detail)) && detail@
                == disconnected()),
    {
        self.send(Message::ResetStyle)
    }

    /// Waits until every command enqueued so far has reached the sink.
    ///
    /// This is the one call that waits for the worker. Where the worker has
    /// stopped it fails with a channel error and changes nothing.
    pub fn flush(&mut self) -> (r: Result<(), Error>)
        requires
            old(self)@.wf(),
        ensures
            final(self)@.wf(),
            final(self)@ == old(self)@.flushed(),
            old(self)@.open ==> r is Ok,
            !old(self)@.open ==> (r matches Err(Error::ChannelError(detail)) && detail@
                == disconnected()),
    {
        let ghost before = self@;
        match self.send(Message::Flush) {
            Err(e) => {
                return Err(e);
            },
            Ok(_) => {},
        }
        let ghost sent = before.pending.push(Command::Flush);
        let mut replies = self.worker.serve(&mut self.queue);
        proof {
            assert forall|i: int| 0 <= i < sent.len() implies !(#[trigger] sent[i] is Exit) by {
                if i < before.pending.len() {
                    assert(sent[i] == before.pending[i]);
                }
            }
            lemma_until_exit_whole(sent);
            lemma_effects_push(before.ansi, before.pending, Command::Flush);
            assert(sent.drop_last() == before.pending);
            reveal(Seq::filter);
            assert(flushes(sent) >= 1);
            assert(commands_of(self.queue@) =~= Seq::empty());
            assert(self@.output =~= before.flushed().output);
        }
        flush_outcome(replies.pop())
    }

    /// Tells the worker to stop and waits for it: every command enqueued so
    /// far reaches the sink, and none is taken afterwards.
    pub fn close(&mut self)
        requires
            old(self)@.wf(),
        ensures
            final(self)@.wf(),
            final(self)@ == old(self)@.shut(),
    {
        let ghost before = self@;
        let _ = self.worker.serve(&mut self.queue);
        let _ = self.worker.handle(Some(&Message::Exit));
        proof {
            lemma_until_exit_whole(before.pending);
            assert(self@.pending =~= before.shut().pending);
            assert(self@.output =~= before.shut().output);
        }
    }

    /// Stops the worker as [`Formatter::close`] does, and hands out its sink.
    pub fn join(self) -> (sink: TerminalFormatter)
        requires
            self@.wf(),
        ensures
            sink.bytes() == self@.shut().output,
            sink.is_ansi() == self@.ansi,
    {
        let mut this = self;
        this.close();
        this.worker.into_sink()
    }

    /// Takes out the commands enqueued and not yet taken by the worker, in
    /// their order, and leaves none: for a worker that runs elsewhere.
    pub fn take_pending(&mut self) -> (messages: Vec<Message>)
        requires
            old(self)@.wf(),
        ensures
            final(self)@.wf(),
            commands_of(messages@) == old(self)@.pending,
            final(self)@ == (FormatterState { pending: Seq::empty(), ..old(self)@ }),
    {
        let mut messages: Vec<Message> = Vec::new();
        core::mem::swap(&mut self.queue, &mut messages);
        assert(self@.pending =~= Seq::<Command>::empty());
        messages
    }

    /// Whether the worker still takes commands.
    pub fn is_open(&self) -> (open: bool)
        ensures
            open == self@.open,
    {
        self.worker.running
    }

    /// A copy of every byte that has reached the sink so far.
    pub fn contents(&self) -> (bytes: Vec<u8>)
        ensures
            bytes@ == self@.output,
    {
        self.worker.contents()
    }

    /// What has reached the sink so far, as text.
    pub fn to_string(&self) -> (text: String)
        ensures
            text@ == lossy_text(self@.output),
    {
        string_from_utf8_lossy(self.contents().as_slice())
    }
}

/// A recipe for human targets that write to memory, for tests.
pub struct TestTarget {
    ansi: bool,
}

/// A test target that drops all colour and styling.
pub fn test() -> (t: TestTarget)
    ensures
        !t.with_color(),
{
    TestTarget { ansi: false }
}

/// A test target that keeps colour and styling, as ANSI escape codes.
pub fn test_with_color() -> (t: TestTarget)
    ensures
        t.with_color(),
{
    TestTarget { ansi: true }
}

impl TestTarget {
    /// Whether styles are kept, as ANSI escape codes.
    pub closed spec fn with_color(&self) -> bool {
        self.ansi
    }

    /// The state of a formatter that was just made: nothing enqueued,
    /// nothing written, the worker running.
    pub open spec fn fresh(&self) -> FormatterState {
        FormatterState {
            pending: Seq::empty(),
            output: Seq::empty(),
            ansi: self.with_color(),
            open: true,
        }
    }

    /// A formatter over a new, empty sink in memory.
    pub fn formatter(&self) -> (f: Formatter)
        ensures
            f@.wf(),
            f@ == self.fresh(),
    {
        let sink = if self.ansi {
            TerminalFormatter::ansi()
        } else {
            TerminalFormatter::no_color()
        };
        Formatter::init_with(Ok(sink)).unwrap()
    }

    /// A target over a new, empty sink in memory.
    pub fn target(&self) -> (t: Target)
        ensures
            t@.wf(),
            t@ == TargetState::Human(self.fresh()),
    {
        Target::human(self.formatter())
    }
}

} // verus!
