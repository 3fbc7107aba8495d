//! The coordinator: the one owner of the document and of the table of
//! live sessions.

use crate::author::{Author, ClientID};
use crate::document::engine::{CausalityError, Document};
use crate::document::insertion::index_below;
use crate::document::model::{is_chain, DocumentView, LogPosition};
use crate::error::Error;
use std::collections::HashSet;
use vstd::prelude::*;
use vstd::std_specs::iter::IteratorSpec;

verus! {

/// A command to the coordinator.
///
/// `Insert` and `Get` are calls: whoever sends one waits for the reply. The
/// others are notifications.
#[derive(Debug, Clone, PartialEq)]
pub enum ServerMessage {
    /// A session was accepted from the given address.
    Connected(ClientID, String),
    /// A session is gone.
    Disconnected(ClientID),
    /// A session inserts a character after a position.
    Insert(ClientID, LogPosition, char),
    /// Associate the document with the resource that `url` locates.
    Open { url: String },
    /// Ask for the current content.
    Get,
}

/// What a command is.
pub ghost enum ServerMessageView {
    Connected(ClientID, Seq<char>),
    Disconnected(ClientID),
    Insert(ClientID, LogPosition, char),
    Open { url: Seq<char> },
    Get,
}

impl ServerMessageView {
    /// Whether the sender of the command waits for a reply.
    pub open spec fn is_call(self) -> bool {
        self is Insert || self is Get
    }
}

impl View for ServerMessage {
    type V = ServerMessageView;

    open spec fn view(&self) -> ServerMessageView {
        match self {
            ServerMessage::Connected(id, address) => ServerMessageView::Connected(*id, address@),
            ServerMessage::Disconnected(id) => ServerMessageView::Disconnected(*id),
            ServerMessage::Insert(id, after, value) => ServerMessageView::Insert(
                *id,
                *after,
                *value,
            ),
            ServerMessage::Open { url } => ServerMessageView::Open { url: url@ },
            ServerMessage::Get => ServerMessageView::Get,
        }
    }
}

/// A snapshot of the content, to be pushed to each of `sessions`.
#[derive(Debug, Clone, PartialEq)]
pub struct Snapshot {
    /// The sessions to push to, each once, in no order that matters.
    pub sessions: Vec<ClientID>,
    pub content: String,
}

/// The reply to a call.
#[derive(Debug, Clone, PartialEq)]
pub enum Reply {
    /// The insertion was made, and every session was sent the new content.
    Inserted,
    /// The command failed; the document is as it was.
    Refused(Error),
    /// The current content.
    Content(String),
}

/// What a reply is.
pub ghost enum ReplyView {
    Inserted,
    Refused(Error),
    Content(Seq<char>),
}

impl View for Reply {
    type V = ReplyView;

    open spec fn view(&self) -> ReplyView {
        match self {
            Reply::Inserted => ReplyView::Inserted,
            Reply::Refused(e) => ReplyView::Refused(*e),
            Reply::Content(s) => ReplyView::Content(s@),
        }
    }
}

/// What is to be done about one command, in this order: push the
/// snapshot, then answer the caller.
#[derive(Debug, Clone, PartialEq)]
pub struct Outcome {
    pub update: Option<Snapshot>,
    pub reply: Option<Reply>,
}

/// What an outcome is: the sessions to push the snapshot to and its text,
/// and the reply.
pub ghost struct OutcomeView {
    pub update: Option<(Set<ClientID>, Seq<char>)>,
    pub reply: Option<ReplyView>,
}

impl Outcome {
    /// No session is named twice.
    pub open spec fn addressed_once(self) -> bool {
        match self.update {
            Some(snapshot) => snapshot.sessions@.no_duplicates(),
            None => true,
        }
    }
}

impl View for Outcome {
    type V = OutcomeView;

    open spec fn view(&self) -> OutcomeView {
        OutcomeView {
            update: match self.update {
                Some(snapshot) => Some((snapshot.sessions@.to_set(), snapshot.content@)),
                None => None,
            },
            reply: match self.reply {
                Some(r) => Some(r@),
                None => None,
            },
        }
    }
}

/// What the coordinator is: the registered sessions, the document, and
/// the locator of the resource that the document belongs to, if one was
/// named.
pub ghost struct ServerView {
    pub sessions: Set<ClientID>,
    pub document: DocumentView,
    pub file: Option<Seq<char>>,
}

impl ServerView {
    /// Whether an insertion after the position `after` is made: the
    /// position is present, and there is a position left for the new
    /// element.
    pub open spec fn takes(self, after: LogPosition) -> bool {
        self.document.holds(after.0 as int) && self.document.next_position() < usize::MAX
    }

    /// The coordinator after it has handled `message`.
    pub open spec fn after(self, message: ServerMessageView) -> ServerView {
        match message {
            ServerMessageView::Connected(id, _) => ServerView {
                sessions: self.sessions.insert(id),
                ..self
            },
            ServerMessageView::Disconnected(id) => ServerView {
                sessions: self.sessions.remove(id),
                ..self
            },
            ServerMessageView::Insert(id, after, value) => if self.takes(after) {
                ServerView {
                    document: self.document.insert_after(Author::Client(id), after, value),
                    ..self
                }
            } else {
                self
            },
            ServerMessageView::Open { url } => ServerView { file: Some(url), ..self },
            ServerMessageView::Get => self,
        }
    }

    /// What is to be done about `message`.
    pub open spec fn outcome(self, message: ServerMessageView) -> OutcomeView {
        match message {
            ServerMessageView::Connected(id, _) => OutcomeView {
                update: Some((set![id], self.document.text())),
                reply: None,
            },
            ServerMessageView::Disconnected(_) => OutcomeView { update: None, reply: None },
            ServerMessageView::Insert(id, after, value) => if self.takes(after) {
                OutcomeView {
                    update: Some((self.sessions, self.after(message).document.text())),
                    reply: Some(ReplyView::Inserted),
                }
            } else if self.document.holds(after.0 as int) {
                OutcomeView { update: None, reply: Some(ReplyView::Refused(Error::Exhausted)) }
            } else {
                OutcomeView {
                    update: None,
                    reply: Some(
                        ReplyView::Refused(Error::Causality(CausalityError { predecessor: after })),
                    ),
                }
            },
            ServerMessageView::Open { url } => OutcomeView { update: None, reply: None },
            ServerMessageView::Get => OutcomeView {
                update: None,
                reply: Some(ReplyView::Content(self.document.text())),
            },
        }
    }
}

/// The coordinator.
pub struct Server {
    sessions: HashSet<ClientID>,
    content: Document,
    file: Option<String>,
}

impl View for Server {
    type V = ServerView;

    closed spec fn view(&self) -> ServerView {
        ServerView {
            sessions: self.sessions@,
            document: self.content@,
            file: match self.file {
                Some(url) => Some(url@),
                None => None,
            },
        }
    }
}

/// The sessions of the table, each once, in the order in which the table
/// yields them.
fn recipients(sessions: &HashSet<ClientID>) -> (to: Vec<ClientID>)
    ensures
        to@.no_duplicates(),
        to@.to_set() == sessions@,
{
    broadcast use vstd::std_specs::hash::group_hash_axioms;

    let mut to: Vec<ClientID> = Vec::new();
    for id in walk: sessions.iter()
        invariant
            to@.len() == walk.index(),
            forall|j: int| 0 <= j < to@.len() ==> to@[j] == *walk.seq()[j],
    {
        to.push(*id);
    }
    proof {
        vstd::std_specs::hash::axiom_spec_hash_keys_iter(sessions);
        let all = vstd::std_specs::hash::spec_hash_keys_iter(sessions).remaining();
        assert(to@ =~= all.unref());
        assert forall|i: int, j: int|
            0 <= i < all.len() && 0 <= j < all.len() && i != j implies all.unref()[i]
            != all.unref()[j] by {
            assert(all[i] != all[j]);
        }
    }
    to
}

impl Server {
    #[verifier::type_invariant]
    spec fn wf(self) -> bool {
        self.content@.sound()
    }

    /// A coordinator with no session, no resource, and an empty document
    /// whose root it owns itself.
    pub fn new() -> (server: Server)
        ensures
            server@ == (ServerView {
                sessions: Set::empty(),
                document: DocumentView::empty(Author::Server),
                file: None,
            }),
            server@.document.next_position() == 1,
            server@.document.text() == Seq::<char>::empty(),
    {
        Server { sessions: HashSet::new(), content: Document::new(Author::Server), file: None }
    }

    /// The document.
    pub fn document(&self) -> (document: &Document)
        ensures
            document@ == self@.document,
            document@.sound(),
    {
        proof {
            use_type_invariant(self);
        }
        &self.content
    }

    /// The locator of the resource that the document belongs to, if one
    /// was named.
    pub fn file(&self) -> (file: Option<&String>)
        ensures
            match file {
                Some(url) => self@.file == Some(url@),
                None => self@.file is None,
            },
    {
        match &self.file {
            Some(url) => Some(url),
            None => None,
        }
    }

    /// The registered sessions.
    pub fn sessions(&self) -> (sessions: &HashSet<ClientID>)
        ensures
            sessions@ == self@.sessions,
    {
        &self.sessions
    }

    /// Handles one command, and says what is to be done about it.
    ///
    /// `Connected` registers the session and sends it the content.
    /// `Disconnected` forgets the session. `Insert` adds the character to
    /// the document on behalf of the session and sends the new content to
    /// every session, the inserting one too; where the position to insert
    /// after is unknown, or the positions are used up, nothing changes and
    /// the caller is told so. `Open` records the locator. `Get` gives the
    /// content.
    pub fn handle_message(&mut self, message: ServerMessage) -> (outcome: Outcome)
        ensures
            final(self)@ == old(self)@.after(message@),
            outcome@ == old(self)@.outcome(message@),
            outcome.addressed_once(),
            final(self)@.document.sound(),
            final(self)@.document.next_position() == old(self)@.document.next_position() + if outcome@.reply
                == Some(ReplyView::Inserted) {
                1int
            } else {
                0int
            },
            outcome@.reply == Some(ReplyView::Inserted) ==> (message@ matches ServerMessageView::Insert(
                id,
                after,
                value,
            ) && {
                let e = old(self)@.document.appended(Author::Client(id), after, value);
                &&& is_chain(old(self)@.document.elements, after.0 as int) ==> {
                    &&& is_chain(final(self)@.document.elements, after.0 + 1)
                    &&& final(self)@.document.text() == old(self)@.document.text().push(value)
                }
                &&& after.0 == 0 && old(self)@.document.leads(e) ==> final(self)@.document.text()
                    == seq![value] + old(self)@.document.text()
                &&& after.0 == 0 && old(self)@.document.trails(e) ==> final(self)@.document.text()
                    == old(self)@.document.text().push(value)
                &&& 0 <= index_below(old(self)@.document, e, 0) <= old(self)@.document.text().len()
                &&& final(self)@.document.text() == old(self)@.document.text().insert(
                    index_below(old(self)@.document, e, 0),
                    value,
                )
            }),
    {
        proof {
            use_type_invariant(&*self);
        }
        let mut server = Server::new();
        core::mem::swap(self, &mut server);
        let Server { mut sessions, mut content, mut file } = server;
        broadcast use vstd::std_specs::hash::group_hash_axioms;

        let outcome = match message {
            ServerMessage::Connected(id, _) => {
                sessions.insert(id);
                let mut to: Vec<ClientID> = Vec::new();
                to.push(id);
                proof {
                    assert(to@ =~= seq![id]);
                    assert(to@[0] == id);
                    assert forall|x: ClientID| to@.to_set().contains(x) <==> set![id].contains(
                        x,
                    ) by {
                        if to@.contains(x) {
                            let i = choose|i: int| 0 <= i < to@.len() && to@[i] == x;
                            assert(to@[i] == id);
                        }
                    }
                    assert(to@.to_set() =~= set![id]);
                }
                Outcome {
                    update: Some(Snapshot { sessions: to, content: content.to_string() }),
                    reply: None,
                }
            },
            ServerMessage::Disconnected(id) => {
                sessions.remove(&id);
                Outcome { update: None, reply: None }
            },
            ServerMessage::Insert(id, after, value) => if content.holds(after)
                && content.next_position().0 == usize::MAX {
                Outcome { update: None, reply: Some(Reply::Refused(Error::Exhausted)) }
            } else {
                match content.insert_after(Author::Client(id), after, value) {
                    Ok(_) => Outcome {
                        update: Some(
                            Snapshot { sessions: recipients(&sessions), content: content.to_string() },
                        ),
                        reply: Some(Reply::Inserted),
                    },
                    Err(e) => Outcome {
                        update: None,
                        reply: Some(Reply::Refused(Error::Causality(e))),
                    },
                }
            },
            ServerMessage::Open { url } => {
                file = Some(url);
                Outcome { update: None, reply: None }
            },
            ServerMessage::Get => Outcome {
                update: None,
                reply: Some(Reply::Content(content.to_string())),
            },
        };
        *self = Server { sessions, content, file };
        outcome
    }
}

} // verus!
