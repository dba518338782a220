use vstd::prelude::*;

verus! {

/// What a message carries; the client decides how to show it by this tag.
#[derive(Clone, Copy, Debug, PartialEq, Eq, Structural)]
pub enum MessageType {
    Info,
    Status,
    ClientMessage,
    RoomList,
    UserList,
    GameMove,
    AvailableGameList,
    AllGameList,
    SelfInfo,
    Connect,
    Disconnect,
    Error,
}

/// A message that the hub or an endpoint sends to one client.
#[derive(Clone, Debug)]
pub struct Message {
    pub msg_type: MessageType,
    pub from_id: usize,
    pub username: String,
    pub content: String,
}

/// The mathematical value of a [`Message`].
pub struct MessageView {
    pub msg_type: MessageType,
    pub from_id: usize,
    pub username: Seq<char>,
    pub content: Seq<char>,
}

impl View for Message {
    type V = MessageView;

    open spec fn view(&self) -> MessageView {
        MessageView {
            msg_type: self.msg_type,
            from_id: self.from_id,
            username: self.username@,
            content: self.content@,
        }
    }
}

/// A message that the server itself originates: sender id 0, name "server".
pub open spec fn server_msg(msg_type: MessageType, content: Seq<char>) -> MessageView {
    MessageView { msg_type, from_id: 0, username: "server"@, content }
}

impl Message {
    /// Builds a server-originated message.
    pub fn server(msg_type: MessageType, content: &str) -> (m: Message)
        ensures
            m@ == server_msg(msg_type, content@),
    {
        Message {
            msg_type,
            from_id: 0,
            username: String::from_str("server"),
            content: String::from_str(content),
        }
    }

    /// A copy of this message, field for field.
    pub fn duplicate(&self) -> (m: Message)
        ensures
            m@ == self@,
    {
        Message {
            msg_type: self.msg_type,
            from_id: self.from_id,
            username: self.username.clone(),
            content: self.content.clone(),
        }
    }

    /// Whether an HTTP answer carrying this message reports a failure.
    pub fn is_error(&self) -> (r: bool)
        ensures
            r == (self.msg_type == MessageType::Error),
    {
        self.msg_type == MessageType::Error
    }
}

/// One message addressed to one session.
#[derive(Clone, Debug)]
pub struct Delivery {
    pub to: usize,
    pub msg: Message,
}

/// The mathematical value of a [`Delivery`].
pub struct DeliveryView {
    pub to: usize,
    pub msg: MessageView,
}

impl View for Delivery {
    type V = DeliveryView;

    open spec fn view(&self) -> DeliveryView {
        DeliveryView { to: self.to, msg: self.msg@ }
    }
}

/// The entries of a comma-separated list, joined with no escaping.
pub open spec fn join_commas(items: Seq<Seq<char>>) -> Seq<char>
    decreases items.len(),
{
    if items.len() == 0 {
        Seq::empty()
    } else if items.len() == 1 {
        items[0]
    } else {
        join_commas(items.drop_last()) + ","@ + items.last()
    }
}

/// Joins the entries with a comma between neighbours.
pub fn join_list(items: &Vec<String>) -> (r: String)
    ensures
        r@ == join_commas(items.deep_view()),
{
    let mut r = String::new();
    let mut i: usize = 0;
    while i < items.len()
        invariant
            i <= items.len(),
            r@ == join_commas(items.deep_view().take(i as int)),
        decreases items.len() - i,
    {
        proof {
            let s = items.deep_view();
            assert(s.take(i as int + 1).drop_last() =~= s.take(i as int));
        }
        if i > 0 {
            r.append(",");
        }
        r.append(items[i].as_str());
        i = i + 1;
    }
    proof {
        assert(items.deep_view().take(i as int) =~= items.deep_view());
    }
    r
}

} // verus!
