//! The update sequencer: a strictly linear state machine that drives
//! the protocol — handshake, prepare, one write per page, finalize,
//! commit — one exchange at a time. The sequencer decides which command
//! to send next and how a reply (or a failed exchange) moves the state;
//! performing the exchange on the transport is the surrounding
//! application's work.

use vstd::prelude::*;

use crate::command::{copy_bytes, Command, CommandModel, FlasherError, Response};

verus! {

/// Why a run aborted: a transport failure, or a page write the device
/// rejected.
#[derive(Clone, Copy, Debug, PartialEq, Eq, Structural)]
pub enum AbortReason {
    NoResponse,
    CouldntDeserialize,
    WriteRejected,
}

/// How a run ended. `Declined` is the device's negative answer to the
/// preparation request: a normal outcome, with nothing written.
/// `Unconfirmed` is its negative answer to the finish announcement: the
/// run ends without marking the image. `Aborted` is a fatal failure.
#[derive(Clone, Copy, Debug, PartialEq, Eq, Structural)]
pub enum Outcome {
    Completed,
    Declined,
    Unconfirmed,
    Aborted(AbortReason),
}

/// The sequencer's state: which command is about to be sent, or the
/// outcome the run finished with. `Writing(i)` is about to send the
/// page write at index `i`.
#[derive(Clone, Copy, Debug, PartialEq, Eq, Structural)]
pub enum State {
    Handshake,
    Preparing,
    Writing(usize),
    Finalizing,
    Committing,
    Finished(Outcome),
}

/// The abort reason a failed exchange maps to.
pub open spec fn abort_reason_of(e: FlasherError) -> AbortReason {
    match e {
        FlasherError::NoResponse => AbortReason::NoResponse,
        FlasherError::CouldntDeserialize => AbortReason::CouldntDeserialize,
    }
}

/// One transition of the state machine: how the outcome of an exchange
/// moves the sequencer from `s`. A failed exchange is fatal anywhere; a
/// `Nack` declines at `Preparing`, rejects a write at `Writing`, and
/// leaves the run unconfirmed at `Finalizing`; the handshake reply and
/// the commit reply are observed but gate nothing; finished states are
/// terminal.
pub open spec fn spec_step(
    s: State,
    num_pages: nat,
    ev: Result<Response, FlasherError>,
) -> State {
    match s {
        State::Finished(o) => State::Finished(o),
        _ => match ev {
            Err(e) => State::Finished(Outcome::Aborted(abort_reason_of(e))),
            Ok(resp) => match s {
                State::Handshake => State::Preparing,
                State::Preparing => if resp is Ack {
                    if num_pages == 0 {
                        State::Finalizing
                    } else {
                        State::Writing(0)
                    }
                } else {
                    State::Finished(Outcome::Declined)
                },
                State::Writing(i) => if resp is Ack {
                    if i + 1 < num_pages {
                        State::Writing((i + 1) as usize)
                    } else {
                        State::Finalizing
                    }
                } else {
                    State::Finished(Outcome::Aborted(AbortReason::WriteRejected))
                },
                State::Finalizing => if resp is Ack {
                    State::Committing
                } else {
                    State::Finished(Outcome::Unconfirmed)
                },
                State::Committing => State::Finished(Outcome::Completed),
                State::Finished(o) => State::Finished(o),
            },
        },
    }
}

/// The command owed in a state: the station's fixed command, the page
/// write at the writing index, or nothing once finished.
pub open spec fn expected_command(s: State, pages: Seq<CommandModel>) -> Option<CommandModel> {
    match s {
        State::Handshake => Some(CommandModel::Hello),
        State::Preparing => Some(CommandModel::PrepareForUpdate),
        State::Writing(i) => if i < pages.len() {
            Some(pages[i as int])
        } else {
            None
        },
        State::Finalizing => Some(CommandModel::FinishedWriting),
        State::Committing => Some(CommandModel::MarkUpdated),
        State::Finished(_) => None,
    }
}

/// The state after a whole sequence of exchange outcomes, first to
/// last.
pub open spec fn run(
    s: State,
    num_pages: nat,
    events: Seq<Result<Response, FlasherError>>,
) -> State
    decreases events.len(),
{
    if events.len() == 0 {
        s
    } else {
        run(spec_step(s, num_pages, events.first()), num_pages, events.drop_first())
    }
}

/// The sequencer: the machine's state beside the page writes it owes
/// the device.
pub struct Sequencer {
    state: State,
    pages: Vec<Command>,
}

impl Sequencer {
    /// The current state.
    pub closed spec fn spec_state(&self) -> State {
        self.state
    }

    /// The page-write commands of the run, in send order.
    pub closed spec fn spec_pages(&self) -> Seq<CommandModel> {
        self.pages@.map_values(|c: Command| c@)
    }

    /// A writing index never runs past the page list.
    pub closed spec fn inv(&self) -> bool {
        self.state matches State::Writing(i) ==> i < self.pages@.len()
    }

    /// Starts a run at the handshake, owing the given page writes.
    pub fn new(pages: Vec<Command>) -> (s: Sequencer)
        ensures
            s.inv(),
            s.spec_state() == State::Handshake,
            s.spec_pages() == pages@.map_values(|c: Command| c@),
    {
        Sequencer { state: State::Handshake, pages }
    }

    /// The current state, for the caller driving the transport.
    pub fn state(&self) -> (s: State)
        ensures
            s == self.spec_state(),
    {
        self.state
    }

    /// How many page writes the run owes.
    pub fn num_pages(&self) -> (n: usize)
        ensures
            n == self.spec_pages().len(),
    {
        self.pages.len()
    }

    /// The outcome, once the run has finished.
    pub fn outcome(&self) -> (o: Option<Outcome>)
        ensures
            match self.spec_state() {
                State::Finished(oc) => o == Some(oc),
                _ => o is None,
            },
    {
        match self.state {
            State::Finished(oc) => Some(oc),
            _ => None,
        }
    }

    /// The command to send next, or nothing once the run has finished.
    pub fn current_command(&self) -> (c: Option<Command>)
        requires
            self.inv(),
        ensures
            match c {
                Some(cmd) => expected_command(self.spec_state(), self.spec_pages()) == Some(cmd@),
                None => expected_command(self.spec_state(), self.spec_pages()) is None,
            },
    {
        match self.state {
            State::Handshake => Some(Command::Hello),
            State::Preparing => Some(Command::PrepareForUpdate),
            State::Writing(i) => {
                match &self.pages[i] {
                    Command::WritePage(addr, page, crc) => Some(
                        Command::WritePage(*addr, copy_bytes(page), *crc),
                    ),
                    Command::Hello => Some(Command::Hello),
                    Command::PrepareForUpdate => Some(Command::PrepareForUpdate),
                    Command::FinishedWriting => Some(Command::FinishedWriting),
                    Command::CompareChecksum(len, digest) => Some(
                        Command::CompareChecksum(*len, copy_bytes(digest)),
                    ),
                    Command::MarkUpdated => Some(Command::MarkUpdated),
                }
            }
            State::Finalizing => Some(Command::FinishedWriting),
            State::Committing => Some(Command::MarkUpdated),
            State::Finished(_) => None,
        }
    }

    /// Feeds the outcome of one exchange into the machine, taking the
    /// step that `spec_step` describes.
    pub fn handle_event(&mut self, ev: &Result<Response, FlasherError>)
        requires
            old(self).inv(),
        ensures
            final(self).inv(),
            final(self).spec_pages() == old(self).spec_pages(),
            final(self).spec_state() == spec_step(
                old(self).spec_state(),
                old(self).spec_pages().len(),
                *ev,
            ),
    {
        let num_pages = self.pages.len();
        let next = match &self.state {
            State::Finished(o) => State::Finished(*o),
            s => match ev {
                Err(e) => State::Finished(Outcome::Aborted(
                    match e {
                        FlasherError::NoResponse => AbortReason::NoResponse,
                        FlasherError::CouldntDeserialize => AbortReason::CouldntDeserialize,
                    },
                )),
                Ok(resp) => match s {
                    State::Handshake => State::Preparing,
                    State::Preparing => if *resp == Response::Ack {
                        if num_pages == 0 {
                            State::Finalizing
                        } else {
                            State::Writing(0)
                        }
                    } else {
                        State::Finished(Outcome::Declined)
                    },
                    State::Writing(i) => if *resp == Response::Ack {
                        if *i + 1 < num_pages {
                            State::Writing(*i + 1)
                        } else {
                            State::Finalizing
                        }
                    } else {
                        State::Finished(Outcome::Aborted(AbortReason::WriteRejected))
                    },
                    State::Finalizing => if *resp == Response::Ack {
                        State::Committing
                    } else {
                        State::Finished(Outcome::Unconfirmed)
                    },
                    State::Committing => State::Finished(Outcome::Completed),
                    State::Finished(o) => State::Finished(*o),
                },
            },
        };
        self.state = next;
    }
}

/// The station the sequencer stands at after `i` acknowledged
/// exchanges of a run with `num_pages` page writes: the handshake, the
/// preparation, one writing station per page in index order, the
/// finalization, the commit, and then the completed outcome.
pub open spec fn all_ack_state(i: nat, num_pages: usize) -> State {
    if i == 0 {
        State::Handshake
    } else if i == 1 {
        State::Preparing
    } else if i < 2 + num_pages {
        State::Writing((i - 2) as usize)
    } else if i == 2 + num_pages {
        State::Finalizing
    } else if i == 3 + num_pages {
        State::Committing
    } else {
        State::Finished(Outcome::Completed)
    }
}

/// Each acknowledged exchange moves the machine to the next station.
pub proof fn lemma_step_ack(num_pages: usize, i: nat)
    ensures
        spec_step(all_ack_state(i, num_pages), num_pages as nat, Ok(Response::Ack))
            == all_ack_state(i + 1, num_pages),
{
}

/// With every exchange acknowledged, a run with `num_pages` page writes
/// walks the stations strictly in order and finishes completed: after
/// `num_pages + 4` acknowledgements the machine stands at the completed
/// outcome, and no two of the stations passed on the way are the same,
/// so each is visited exactly once.
pub proof fn lemma_sequencer_linearity(
    num_pages: usize,
    events: Seq<Result<Response, FlasherError>>,
)
    requires
        events.len() == num_pages + 4,
        forall|i: int|
            0 <= i < events.len() ==> events[i] == Ok::<Response, FlasherError>(Response::Ack),
    ensures
        run(State::Handshake, num_pages as nat, events) == State::Finished(Outcome::Completed),
        forall|m: int|
            0 <= m <= events.len() ==> run(State::Handshake, num_pages as nat, events.take(m))
                == all_ack_state(m as nat, num_pages),
        forall|i: nat, j: nat|
            i < j <= 3 + num_pages ==> all_ack_state(i, num_pages) != all_ack_state(j, num_pages),
{
    lemma_run_all_ack(num_pages, 0, events);
    assert forall|m: int|
        0 <= m <= events.len() implies run(State::Handshake, num_pages as nat, events.take(m))
        == all_ack_state(m as nat, num_pages) by {
        assert(forall|j: int|
            0 <= j < events.take(m).len() ==> events.take(m)[j] == Ok::<
                Response,
                FlasherError,
            >(Response::Ack));
        lemma_run_all_ack(num_pages, 0, events.take(m));
    }
}

/// Helper for the linearity law: from station `i`, a run of
/// acknowledged exchanges advances one station per event.
proof fn lemma_run_all_ack(num_pages: usize, i: nat, events: Seq<Result<Response, FlasherError>>)
    requires
        forall|j: int|
            0 <= j < events.len() ==> events[j] == Ok::<Response, FlasherError>(Response::Ack),
    ensures
        run(all_ack_state(i, num_pages), num_pages as nat, events) == all_ack_state(
            i + events.len(),
            num_pages,
        ),
    decreases events.len(),
{
    if events.len() > 0 {
        lemma_step_ack(num_pages, i);
        lemma_run_all_ack(num_pages, i + 1, events.drop_first());
    }
}

/// Declining the preparation short-circuits the run: whatever the
/// handshake reply was, a `Nack` to `PrepareForUpdate` finishes the
/// machine declined — a terminal state that owes no further command, so
/// no page write is ever sent.
pub proof fn lemma_decline_short_circuit(
    num_pages: usize,
    hello_reply: Response,
    pages: Seq<CommandModel>,
)
    ensures
        run(
            State::Handshake,
            num_pages as nat,
            seq![Ok(hello_reply), Ok(Response::Nack)],
        ) == State::Finished(Outcome::Declined),
        forall|ev: Result<Response, FlasherError>|
            spec_step(State::Finished(Outcome::Declined), num_pages as nat, ev) == State::Finished(
                Outcome::Declined,
            ),
        expected_command(State::Finished(Outcome::Declined), pages) is None,
{
    reveal_with_fuel(run, 4);
    let events = seq![Ok::<Response, FlasherError>(hello_reply), Ok(Response::Nack)];
    assert(events.drop_first() =~= seq![Ok::<Response, FlasherError>(Response::Nack)]);
    assert(events.drop_first().drop_first() =~= Seq::<
        Result<Response, FlasherError>,
    >::empty());
}

/// A rejected page write aborts the run at once: at any writing
/// station — in particular the one reached after `k` acknowledged
/// writes — a `Nack` finishes the machine write-rejected, a terminal
/// state that owes no further command.
pub proof fn lemma_write_rejection_abort(num_pages: usize, k: usize, pages: Seq<CommandModel>)
    requires
        k < num_pages,
    ensures
        all_ack_state((2 + k) as nat, num_pages) == State::Writing(k),
        spec_step(State::Writing(k), num_pages as nat, Ok(Response::Nack)) == State::Finished(
            Outcome::Aborted(AbortReason::WriteRejected),
        ),
        forall|ev: Result<Response, FlasherError>|
            spec_step(
                State::Finished(Outcome::Aborted(AbortReason::WriteRejected)),
                num_pages as nat,
                ev,
            ) == State::Finished(Outcome::Aborted(AbortReason::WriteRejected)),
        expected_command(
            State::Finished(Outcome::Aborted(AbortReason::WriteRejected)),
            pages,
        ) is None,
{
}

/// A failed exchange is fatal wherever it strikes: from any unfinished
/// state it finishes the machine aborted with that failure's reason — a
/// terminal state that owes no further command, so nothing more is
/// sent.
pub proof fn lemma_transport_failure_aborts(
    s: State,
    num_pages: usize,
    e: FlasherError,
    pages: Seq<CommandModel>,
)
    requires
        !(s is Finished),
    ensures
        spec_step(s, num_pages as nat, Err(e)) == State::Finished(
            Outcome::Aborted(abort_reason_of(e)),
        ),
        forall|ev: Result<Response, FlasherError>|
            spec_step(
                State::Finished(Outcome::Aborted(abort_reason_of(e))),
                num_pages as nat,
                ev,
            ) == State::Finished(Outcome::Aborted(abort_reason_of(e))),
        expected_command(State::Finished(Outcome::Aborted(abort_reason_of(e))), pages) is None,
{
}

} // verus!
