use vstd::prelude::*;

verus! {

/// One chat message for the messenger's `sendMessage` call.
#[derive(Debug)]
pub struct Message {
    pub chat_id: i64,
    pub text: String,
    pub parse_mode: String,
    /// Whether the message is delivered without a sound.
    pub disable_notification: bool,
}

impl Message {
    pub fn new(chat_id: i64, text: String, silent: bool) -> (r: Message)
        ensures
            r.chat_id == chat_id,
            r.text == text,
            r.parse_mode@ == "Markdown"@,
            r.disable_notification == silent,
    {
        Message {
            chat_id,
            text,
            parse_mode: String::from_str("Markdown"),
            disable_notification: silent,
        }
    }

    /// The name of the messenger method that delivers a message.
    pub fn method() -> (r: &'static str)
        ensures
            r@ == "sendMessage"@,
    {
        "sendMessage"
    }
}

} // verus!
