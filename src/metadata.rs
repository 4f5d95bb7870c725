use crate::time::{cooled_down, Duration, Timestamp};
use vstd::prelude::*;

verus! {

/// The icon shown for a person who has not chosen one.
pub const DEFAULT_ICON: &'static str = "👤";

/// What is known of the person a device belongs to, and of whom to tell.
#[derive(Debug)]
pub struct Metadata {
    pub name: String,
    pub icon: Option<String>,
    pub username: Option<String>,
    pub subscriber_name: String,
    pub chat_id: i64,
    /// When the last notification for this person went out, if one did.
    pub last_notified: Option<Timestamp>,
}

/// How a person is shown in a message: the icon (or the default one) and the
/// name, made a link to the messenger handle where there is one.
pub open spec fn display_text(name: String, icon: Option<String>, username: Option<String>) -> Seq<
    char,
> {
    let icon = match icon {
        Some(i) => i@,
        None => DEFAULT_ICON@,
    };
    let body = icon + seq![' '] + name@;
    match username {
        Some(u) => seq!['['] + body + "](t.me/"@ + u@ + seq![')'],
        None => body,
    }
}

impl Metadata {
    pub fn new(
        name: String,
        icon: Option<String>,
        username: Option<String>,
        subscriber_name: String,
        chat_id: i64,
    ) -> (r: Metadata)
        ensures
            r.name == name,
            r.icon == icon,
            r.username == username,
            r.subscriber_name == subscriber_name,
            r.chat_id == chat_id,
            r.last_notified is None,
    {
        Metadata { name, icon, username, subscriber_name, chat_id, last_notified: None }
    }

    /// Whether a notification goes out at `now`. Without a cooldown always,
    /// and nothing is recorded. With one, the first time always, later only
    /// once the cooldown has passed since the last one that went out; each
    /// one that goes out records `now`.
    pub fn should_notify(&mut self, cooldown: &Option<Duration>, now: Timestamp) -> (r: bool)
        ensures
            final(self).name == old(self).name,
            final(self).icon == old(self).icon,
            final(self).username == old(self).username,
            final(self).subscriber_name == old(self).subscriber_name,
            final(self).chat_id == old(self).chat_id,
            match *cooldown {
                None => r && final(self).last_notified == old(self).last_notified,
                Some(c) => {
                    &&& r == match old(self).last_notified {
                        None => true,
                        Some(last) => cooled_down(last, now, c),
                    }
                    &&& final(self).last_notified == if r {
                        Some(now)
                    } else {
                        old(self).last_notified
                    }
                },
            },
            (cooldown matches Some(c) && c.millis >= 0 && old(self).last_notified is Some) ==> (
            final(self).last_notified matches Some(f) && f.millis >= old(
                self,
            ).last_notified->0.millis),
    {
        let cooldown = match cooldown {
            Some(cooldown) => cooldown,
            None => return true,
        };
        match self.last_notified {
            Some(last_notified) => {
                if now.cooled_down_since(last_notified, *cooldown) {
                    self.last_notified = Some(now);
                    true
                } else {
                    false
                }
            },
            None => {
                self.last_notified = Some(now);
                true
            },
        }
    }

    /// The person as shown in a message; see `display_text`.
    pub fn to_string(&self) -> (r: String)
        ensures
            r@ == display_text(self.name, self.icon, self.username),
    {
        let mut r = String::new();
        if self.username.is_some() {
            proof {
                reveal_strlit("[");
            }
            r.append("[");
        }
        match &self.icon {
            Some(icon) => r.append(icon.as_str()),
            None => r.append(DEFAULT_ICON),
        }
        proof {
            reveal_strlit(" ");
        }
        r.append(" ");
        r.append(self.name.as_str());
        match &self.username {
            Some(username) => {
                r.append("](t.me/");
                r.append(username.as_str());
                proof {
                    reveal_strlit(")");
                }
                r.append(")");
            },
            None => {},
        }
        proof {
            let icon = match &self.icon {
                Some(i) => i@,
                None => DEFAULT_ICON@,
            };
            let body = icon + seq![' '] + self.name@;
            match &self.username {
                Some(u) => {
                    assert(r@ =~= seq!['['] + body + "](t.me/"@ + u@ + seq![')']);
                },
                None => {
                    assert(r@ =~= body);
                },
            }
        }
        r
    }
}

} // verus!
