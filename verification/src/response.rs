//! What an execution hands back: the messages to send and the attributes to
//! log.

use vstd::prelude::*;

verus! {

/// The id under which the reply to a poll's execution comes back.
pub const POLL_EXECUTE_REPLY_ID: u64 = 1;

/// The value of a logged attribute.
#[derive(Debug)]
pub enum AttrValue {
    /// A fixed word.
    Word(&'static str),
    /// A text such as an address.
    Text(String),
    /// A number, written in decimal.
    Number(u128),
    /// A boolean, written `true` or `false`.
    Flag(bool),
    /// A list of ids, written as a debug list such as `[0, 1]`.
    Ids(Vec<u64>),
}

#[derive(Debug)]
pub struct Attribute {
    pub key: &'static str,
    pub value: AttrValue,
}

/// A call of this contract to itself.
#[derive(Debug)]
pub enum SelfMsg {
    /// Brings the airdrop accruals up to date, and those of `target` if given.
    AirdropUpdate { target: Option<String> },
    /// Stakes `amount` tokens that `sender` sent.
    StakeInternal { sender: String, amount: u128 },
    /// Unstakes `amount` (or everything) for `sender`.
    UnstakeInternal { sender: String, amount: Option<u128> },
    /// Sends the messages of a passed poll.
    ExecuteMsgs { poll_id: u64 },
    /// Pays out `sender`'s reward of one airdrop.
    ClaimInternal { sender: String, airdrop_id: u64 },
}

/// A message the contract sends.
#[derive(Debug)]
pub enum Msg {
    /// A token transfer: `amount` of the token contract `token` to `recipient`.
    Transfer { token: String, recipient: String, amount: u128 },
    /// A call of this contract.
    ToSelf(SelfMsg),
    /// A stored message of a poll, sent to `contract` as it stands.
    Wasm { contract: String, msg: Vec<u8> },
}

/// A message, and the reply id under which a failure of it comes back.
#[derive(Debug)]
pub struct SubMsg {
    pub msg: Msg,
    pub reply_on_error: Option<u64>,
}

#[derive(Debug)]
pub struct Response {
    pub messages: Vec<SubMsg>,
    pub attributes: Vec<Attribute>,
}

impl Response {
    pub fn new() -> (r: Response)
        ensures
            r.messages@ == Seq::<SubMsg>::empty(),
            r.attributes@ == Seq::<Attribute>::empty(),
    {
        Response { messages: Vec::new(), attributes: Vec::new() }
    }

    pub fn add_attribute(&mut self, key: &'static str, value: AttrValue)
        ensures
            final(self).messages@ == old(self).messages@,
            final(self).attributes@ == old(self).attributes@.push(Attribute { key, value }),
    {
        self.attributes.push(Attribute { key, value });
    }

    pub fn add_message(&mut self, msg: Msg)
        ensures
            final(self).messages@ == old(self).messages@.push(SubMsg { msg, reply_on_error: None }),
            final(self).attributes@ == old(self).attributes@,
    {
        self.messages.push(SubMsg { msg, reply_on_error: None });
    }
}

/// An attribute with a fixed word as its value.
pub open spec fn word(key: &'static str, w: &'static str) -> Attribute {
    Attribute { key, value: AttrValue::Word(w) }
}

/// An attribute with a number as its value.
pub open spec fn number(key: &'static str, n: u128) -> Attribute {
    Attribute { key, value: AttrValue::Number(n) }
}

/// An attribute with a text as its value.
pub open spec fn text(key: &'static str, t: String) -> Attribute {
    Attribute { key, value: AttrValue::Text(t) }
}

} // verus!
