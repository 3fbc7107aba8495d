//! What holds of every step of the two actors.

use crate::author::{Author, ClientID};
use crate::document::model::LogPosition;
use crate::frame::client::FrameView;
use crate::document::insertion::{index_below, lemma_insert_after_text};
use crate::server::coordinator::{OutcomeView, ReplyView, ServerMessageView, ServerView};
use crate::server::session::{
    next_state, outcome_of, SessionEventView, SessionMessageView, SessionReply, SessionState,
};
use vstd::prelude::*;

verus! {

/// The coordinator answers every call once, and never answers a
/// notification.
pub proof fn lemma_coordinator_replies_once(server: ServerView, message: ServerMessageView)
    ensures
        server.outcome(message).reply is Some <==> message.is_call(),
{
}

/// A session answers every frame of its client once, whatever its state,
/// and never answers anything else.
pub proof fn lemma_session_replies_once(id: ClientID, state: SessionState, event: SessionEventView)
    ensures
        outcome_of(id, state, event).reply is Some <==> event.is_call(),
{
}

/// An insertion that is made is sent to every registered session, the
/// inserting one too; one that is refused is sent to nobody and leaves
/// the coordinator as it was.
pub proof fn lemma_insertion_reaches_every_session(
    server: ServerView,
    id: ClientID,
    after: LogPosition,
    value: char,
)
    ensures
        ({
            let message = ServerMessageView::Insert(id, after, value);
            if server.takes(after) {
                server.outcome(message).update == Some(
                    (server.sessions, server.after(message).document.text()),
                )
            } else {
                server.outcome(message).update is None && server.after(message) == server
            }
        }),
{
}

/// An insertion that is made is answered once, after every registered
/// session was named to be sent the new text; that text is the old text
/// with the character put in at one place, so whoever asks for the content
/// afterwards finds the character in it.
pub proof fn lemma_insertion_shows(
    server: ServerView,
    id: ClientID,
    after: LogPosition,
    value: char,
)
    requires
        server.document.sound(),
        server.takes(after),
    ensures
        ({
            let message = ServerMessageView::Insert(id, after, value);
            let then = server.after(message);
            &&& server.outcome(message).reply == Some(ReplyView::Inserted)
            &&& server.outcome(message).update == Some((server.sessions, then.document.text()))
            &&& then.document.text().len() == server.document.text().len() + 1
            &&& then.document.text().contains(value)
            &&& then.outcome(ServerMessageView::Get).reply == Some(
                ReplyView::Content(then.document.text()),
            )
        }),
{
    let e = server.document.appended(Author::Client(id), after, value);
    lemma_insert_after_text(server.document, Author::Client(id), after, value);
    let i = index_below(server.document, e, 0);
    crate::document::insertion::lemma_insert_text(server.document, e);
    let text = server.document.text().insert(i, value);
    assert(text[i] == value);
}

/// A session that was registered is in the table, once, and one that was
/// told to leave is no longer in it; registering a session again changes
/// nothing of the table.
pub proof fn lemma_registration(server: ServerView, id: ClientID, address: Seq<char>)
    ensures
        server.after(ServerMessageView::Connected(id, address)).sessions.contains(id),
        !server.after(ServerMessageView::Disconnected(id)).sessions.contains(id),
        server.sessions.contains(id) ==> server.after(
            ServerMessageView::Connected(id, address),
        ).sessions == server.sessions,
{
    if server.sessions.contains(id) {
        assert(server.sessions.insert(id) =~= server.sessions);
    }
}

/// The coordinator after it has handled `messages` one after the other,
/// the first of them first.
pub open spec fn run(server: ServerView, messages: Seq<ServerMessageView>) -> ServerView
    decreases messages.len(),
{
    if messages.len() == 0 {
        server
    } else {
        run(server, messages.drop_last()).after(messages.last())
    }
}

/// Commands are handled one at a time and in the order in which they are
/// taken from the mailbox: what two runs of commands leave behind is what
/// the second leaves behind after the first, and of two commands the
/// first is handled before the second.
pub proof fn lemma_commands_in_order(
    server: ServerView,
    first: Seq<ServerMessageView>,
    second: Seq<ServerMessageView>,
)
    ensures
        run(server, first + second) == run(run(server, first), second),
        first.len() == 1 && second.len() == 1 ==> run(server, first + second) == server.after(
            first[0],
        ).after(second[0]),
    decreases second.len(),
{
    if second.len() == 0 {
        assert(first + second =~= first);
    } else {
        assert((first + second).drop_last() =~= first + second.drop_last());
        assert((first + second).last() == second.last());
        lemma_commands_in_order(server, first, second.drop_last());
    }
    if first.len() == 1 && second.len() == 1 {
        assert(first.drop_last() =~= Seq::<ServerMessageView>::empty());
        assert(second.drop_last() =~= Seq::<ServerMessageView>::empty());
        assert(run(server, first.drop_last()) == server);
        assert(first.last() == first[0]);
        assert(run(server, first) == server.after(first[0]));
        let middle = run(server, first);
        assert(run(middle, second.drop_last()) == middle);
        assert(second.last() == second[0]);
        assert(run(middle, second) == middle.after(second[0]));
    }
}

/// A session that leaves takes nothing with it: the document and the
/// resource stay as they are, and every other session stays registered.
pub proof fn lemma_leaving_touches_nobody_else(server: ServerView, id: ClientID, other: ClientID)
    requires
        other != id,
    ensures
        server.after(ServerMessageView::Disconnected(id)).document == server.document,
        server.after(ServerMessageView::Disconnected(id)).file == server.file,
        server.sessions.contains(other) ==> server.after(
            ServerMessageView::Disconnected(id),
        ).sessions.contains(other),
        server.outcome(ServerMessageView::Disconnected(id)) == (OutcomeView {
            update: None,
            reply: None,
        }),
{
}

/// A frame that asks for an insertion becomes, by way of a live session
/// and the coordinator, the insertion of the character after the position
/// that the frame names, on behalf of the client of that session: the
/// session hands on one command, writes nothing to its client, and answers
/// with what the coordinator replies; the coordinator makes the insertion
/// where it takes it, and changes nothing where it does not.
pub proof fn lemma_frame_becomes_insertion(
    server: ServerView,
    id: ClientID,
    state: SessionState,
    value: char,
    index: usize,
)
    requires
        state.live(),
    ensures
        ({
            let frame = FrameView::Insert { char: value, index };
            let event = SessionEventView::Message(SessionMessageView::ClientFrame(frame));
            let command = ServerMessageView::Insert(id, LogPosition(index), value);
            &&& outcome_of(id, state, event).forward == Some(command)
            &&& outcome_of(id, state, event).reply == Some(SessionReply::Relayed)
            &&& outcome_of(id, state, event).send is None
            &&& next_state(state, event) == state
            &&& server.takes(LogPosition(index)) ==> server.after(command).document
                == server.document.insert_after(Author::Client(id), LogPosition(index), value)
            &&& !server.takes(LogPosition(index)) ==> server.after(command) == server
            &&& server.after(command).sessions == server.sessions
        }),
{
}

/// How far a session is in its life.
pub open spec fn progress(state: SessionState) -> int {
    match state {
        SessionState::Connecting => 0,
        SessionState::Active => 1,
        SessionState::Closing => 2,
        SessionState::Terminated => 3,
    }
}

/// A session never goes back in its life; it ends only from `Closing`, and
/// only when the coordinator has acknowledged that it left; and once it
/// has ended it stays so.
pub proof fn lemma_session_moves_forward(state: SessionState, event: SessionEventView)
    ensures
        progress(next_state(state, event)) >= progress(state),
        next_state(state, event) is Terminated ==> state is Terminated || (state is Closing
            && event is Unregistered),
        state is Terminated ==> next_state(state, event) is Terminated,
{
}

/// A session tells the coordinator that it is gone exactly when its
/// service ends, and from then on hands nothing to it.
pub proof fn lemma_session_leaves_once(id: ClientID, state: SessionState, event: SessionEventView)
    ensures
        outcome_of(id, state, event).forward == Some(ServerMessageView::Disconnected(id)) <==> (
        state.live() && event.ends()),
        !state.live() ==> outcome_of(id, state, event).forward is None,
        state.live() && event.ends() ==> !next_state(state, event).live(),
{
}

} // verus!
