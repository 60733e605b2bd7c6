//! The message types carried over the wire: a chat message and the tagged
//! envelope that frames every server/client exchange.

use vstd::prelude::*;

verus! {

/// One chat message as authored by a client's session. The registry never
/// constructs these; it only relays them. `created_at` carries the sender's
/// timestamp text verbatim; the core never interprets it.
#[derive(Debug, PartialEq, Eq)]
pub struct ChatMessage {
    pub author: String,
    pub message: String,
    pub created_at: String,
}

/// Mathematical model of a `ChatMessage`: its three fields as character
/// sequences.
pub struct ChatMessageModel {
    pub author: Seq<char>,
    pub message: Seq<char>,
    pub created_at: Seq<char>,
}

impl View for ChatMessage {
    type V = ChatMessageModel;

    open spec fn view(&self) -> ChatMessageModel {
        ChatMessageModel {
            author: self.author@,
            message: self.message@,
            created_at: self.created_at@,
        }
    }
}

impl ChatMessage {
    /// A deep copy whose model is the same.
    pub fn duplicate(&self) -> (r: ChatMessage)
        ensures
            r@ == self@,
    {
        ChatMessage {
            author: self.author.clone(),
            message: self.message.clone(),
            created_at: self.created_at.clone(),
        }
    }
}

/// The wire envelope: a tagged union of everything either side may send.
/// `NewMessage` relays one chat message; `UsernameChange` is both the
/// client's rename request and the server's acknowledgment; `UsersList`
/// carries the display names of everyone present, in registry iteration
/// (insertion) order.
#[derive(Debug, PartialEq, Eq)]
pub enum Envelope {
    NewMessage(ChatMessage),
    UsernameChange(String),
    UsersList(Vec<String>),
}

/// Mathematical model of an `Envelope`.
pub enum EnvelopeModel {
    NewMessage(ChatMessageModel),
    UsernameChange(Seq<char>),
    UsersList(Seq<Seq<char>>),
}

impl View for Envelope {
    type V = EnvelopeModel;

    open spec fn view(&self) -> EnvelopeModel {
        match self {
            Envelope::NewMessage(m) => EnvelopeModel::NewMessage(m@),
            Envelope::UsernameChange(n) => EnvelopeModel::UsernameChange(n@),
            Envelope::UsersList(u) => EnvelopeModel::UsersList(
                Seq::new(u@.len(), |i: int| u@[i]@),
            ),
        }
    }
}

impl Envelope {
    /// A deep copy whose model is the same.
    pub fn duplicate(&self) -> (r: Envelope)
        ensures
            r@ == self@,
    {
        match self {
            Envelope::NewMessage(m) => Envelope::NewMessage(m.duplicate()),
            Envelope::UsernameChange(n) => Envelope::UsernameChange(n.clone()),
            Envelope::UsersList(u) => {
                let mut copy: Vec<String> = Vec::new();
                let mut i: usize = 0;
                while i < u.len()
                    invariant
                        i <= u.len(),
                        copy@.len() == i as int,
                        forall|k: int| 0 <= k < i ==> copy@[k]@ == u@[k]@,
                    decreases u.len() - i,
                {
                    copy.push(u[i].clone());
                    i = i + 1;
                }
                proof {
                    assert(Seq::new(copy@.len(), |i: int| copy@[i]@) =~= Seq::new(
                        u@.len(),
                        |i: int| u@[i]@,
                    ));
                }
                Envelope::UsersList(copy)
            },
        }
    }
}

} // verus!
