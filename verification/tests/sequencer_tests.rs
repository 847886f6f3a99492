use serial_flasher::command::{Command, FlasherError, Response};
use serial_flasher::sequencer::{AbortReason, Outcome, Sequencer, State};

fn page_cmd(addr: usize, fill: u8) -> Command {
    Command::WritePage(addr, vec![fill; 256], fill)
}

/// Runs the machine against a scripted transport until it finishes,
/// returning every command it asked to have sent, in order, and the
/// states it stood in before each send.
fn drive(
    sequencer: &mut Sequencer,
    mut script: impl FnMut(&Command) -> Result<Response, FlasherError>,
) -> (Vec<Command>, Vec<State>) {
    let mut sent = Vec::new();
    let mut states = Vec::new();
    while let Some(cmd) = sequencer.current_command() {
        states.push(sequencer.state());
        let ev = script(&cmd);
        sent.push(cmd);
        sequencer.handle_event(&ev);
    }
    (sent, states)
}

#[test]
fn all_acks_visit_stations_in_order() {
    let mut sequencer = Sequencer::new(vec![page_cmd(0, 0xAA), page_cmd(512, 0xBB)]);
    let (sent, states) = drive(&mut sequencer, |_| Ok(Response::Ack));
    assert_eq!(sent.len(), 6);
    assert!(matches!(sent[0], Command::Hello));
    assert!(matches!(sent[1], Command::PrepareForUpdate));
    assert!(matches!(sent[2], Command::WritePage(0, _, _)));
    assert!(matches!(sent[3], Command::WritePage(512, _, _)));
    assert!(matches!(sent[4], Command::FinishedWriting));
    assert!(matches!(sent[5], Command::MarkUpdated));
    assert_eq!(
        states,
        vec![
            State::Handshake,
            State::Preparing,
            State::Writing(0),
            State::Writing(1),
            State::Finalizing,
            State::Committing,
        ]
    );
    assert_eq!(sequencer.outcome(), Some(Outcome::Completed));
}

#[test]
fn empty_image_still_completes() {
    let mut sequencer = Sequencer::new(Vec::new());
    let (sent, states) = drive(&mut sequencer, |_| Ok(Response::Ack));
    assert_eq!(sent.len(), 4);
    assert!(matches!(sent[0], Command::Hello));
    assert!(matches!(sent[1], Command::PrepareForUpdate));
    assert!(matches!(sent[2], Command::FinishedWriting));
    assert!(matches!(sent[3], Command::MarkUpdated));
    assert_eq!(
        states,
        vec![State::Handshake, State::Preparing, State::Finalizing, State::Committing]
    );
    assert_eq!(sequencer.outcome(), Some(Outcome::Completed));
}

#[test]
fn handshake_nack_does_not_gate() {
    // the reply to the greeting is observed but gates nothing
    let mut sequencer = Sequencer::new(vec![page_cmd(0, 1)]);
    let (sent, _) = drive(&mut sequencer, |cmd| match cmd {
        Command::Hello => Ok(Response::Nack),
        _ => Ok(Response::Ack),
    });
    assert_eq!(sent.len(), 5);
    assert_eq!(sequencer.outcome(), Some(Outcome::Completed));
}

#[test]
fn declined_preparation_sends_no_pages() {
    let mut sequencer = Sequencer::new(vec![page_cmd(0, 1), page_cmd(256, 2)]);
    let (sent, _) = drive(&mut sequencer, |cmd| match cmd {
        Command::PrepareForUpdate => Ok(Response::Nack),
        _ => Ok(Response::Ack),
    });
    assert_eq!(sent.len(), 2);
    assert!(matches!(sent[0], Command::Hello));
    assert!(matches!(sent[1], Command::PrepareForUpdate));
    assert!(!sent.iter().any(|c| matches!(c, Command::WritePage(..))));
    assert_eq!(sequencer.outcome(), Some(Outcome::Declined));
}

#[test]
fn rejected_write_aborts_the_run() {
    // the first write is acknowledged, the second rejected
    let mut sequencer =
        Sequencer::new(vec![page_cmd(0, 1), page_cmd(256, 2), page_cmd(512, 3)]);
    let mut writes_seen = 0;
    let (sent, _) = drive(&mut sequencer, |cmd| match cmd {
        Command::WritePage(..) => {
            writes_seen += 1;
            if writes_seen > 1 {
                Ok(Response::Nack)
            } else {
                Ok(Response::Ack)
            }
        }
        _ => Ok(Response::Ack),
    });
    // hello, prepare, the acknowledged write, the rejected write
    assert_eq!(sent.len(), 4);
    assert!(matches!(sent[3], Command::WritePage(256, _, _)));
    assert!(!sent.iter().any(|c| matches!(c, Command::FinishedWriting)));
    assert_eq!(
        sequencer.outcome(),
        Some(Outcome::Aborted(AbortReason::WriteRejected))
    );
}

#[test]
fn transport_timeout_aborts_at_once() {
    let mut sequencer = Sequencer::new(vec![page_cmd(0, 1)]);
    let (sent, _) = drive(&mut sequencer, |_| Err(FlasherError::NoResponse));
    assert_eq!(sent.len(), 1);
    assert!(matches!(sent[0], Command::Hello));
    assert_eq!(
        sequencer.outcome(),
        Some(Outcome::Aborted(AbortReason::NoResponse))
    );
}

#[test]
fn undecodable_reply_aborts_mid_run() {
    let mut sequencer = Sequencer::new(vec![page_cmd(0, 1)]);
    let (sent, _) = drive(&mut sequencer, |cmd| match cmd {
        Command::WritePage(..) => Err(FlasherError::CouldntDeserialize),
        _ => Ok(Response::Ack),
    });
    assert_eq!(sent.len(), 3);
    assert_eq!(
        sequencer.outcome(),
        Some(Outcome::Aborted(AbortReason::CouldntDeserialize))
    );
}

#[test]
fn unacknowledged_finish_leaves_run_unconfirmed() {
    let mut sequencer = Sequencer::new(vec![page_cmd(0, 1)]);
    let (sent, _) = drive(&mut sequencer, |cmd| match cmd {
        Command::FinishedWriting => Ok(Response::Nack),
        _ => Ok(Response::Ack),
    });
    assert!(!sent.iter().any(|c| matches!(c, Command::MarkUpdated)));
    assert_eq!(sequencer.outcome(), Some(Outcome::Unconfirmed));
}
