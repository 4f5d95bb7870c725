use crate::time::{cooled_down, Duration, Timestamp};
use vstd::prelude::*;

verus! {

/// When each key was last let through, looking from the latest entry back.
pub open spec fn recorded(h: Seq<(String, Timestamp)>, key: Seq<char>) -> Option<Timestamp>
    decreases h.len(),
{
    if h.len() == 0 {
        None
    } else if h.last().0@ == key {
        Some(h.last().1)
    } else {
        recorded(h.drop_last(), key)
    }
}

/// Whether entry `i` is the latest one for its key.
pub open spec fn latest_for(h: Seq<(String, Timestamp)>, i: int) -> bool {
    0 <= i < h.len() && forall|j: int| i < j < h.len() ==> (#[trigger] h[j]).0@ != h[i].0@
}

proof fn lemma_recorded_update(h: Seq<(String, Timestamp)>, i: int, e: (String, Timestamp), k: Seq<char>)
    requires
        latest_for(h, i),
        e.0@ == h[i].0@,
    ensures
        recorded(h.update(i, e), k) == if k == e.0@ { Some(e.1) } else { recorded(h, k) },
    decreases h.len(),
{
    let g = h.update(i, e);
    if i == h.len() - 1 {
        assert(g.drop_last() =~= h.drop_last());
    } else {
        assert(h.last() == h[h.len() - 1]);
        assert(g.last() == h.last());
        assert(g.drop_last() =~= h.drop_last().update(i, e));
        assert forall|j: int| i < j < h.drop_last().len() implies (#[trigger] h.drop_last()[j]).0@ != h.drop_last()[i].0@ by {
            assert(h.drop_last()[j] == h[j]);
        }
        lemma_recorded_update(h.drop_last(), i, e, k);
    }
}

proof fn lemma_recorded_absent(h: Seq<(String, Timestamp)>, k: Seq<char>)
    requires
        forall|j: int| 0 <= j < h.len() ==> (#[trigger] h[j]).0@ != k,
    ensures
        recorded(h, k) is None,
    decreases h.len(),
{
    if h.len() > 0 {
        assert(h.last() == h[h.len() - 1]);
        assert forall|j: int| 0 <= j < h.drop_last().len() implies (#[trigger] h.drop_last()[j]).0@ != k by {
            assert(h.drop_last()[j] == h[j]);
        }
        lemma_recorded_absent(h.drop_last(), k);
    }
}

proof fn lemma_recorded_push(h: Seq<(String, Timestamp)>, e: (String, Timestamp), k: Seq<char>)
    ensures
        recorded(h.push(e), k) == if k == e.0@ { Some(e.1) } else { recorded(h, k) },
{
    assert(h.push(e).drop_last() =~= h);
}

/// A throttle for notifications, keyed by a name: with a cooldown, a key is
/// let through at most once per cooldown.
pub enum Hysteresis {
    Disabled,
    Enabled { history: Vec<(String, Timestamp)>, cooldown: Duration },
}

impl Hysteresis {
    pub fn new(cooldown: Option<Duration>) -> (r: Hysteresis)
        ensures
            match cooldown {
                None => r is Disabled,
                Some(c) => r matches Hysteresis::Enabled { history, cooldown: rc } && rc == c
                    && history@.len() == 0,
            },
    {
        match cooldown {
            None => Hysteresis::Disabled,
            Some(cooldown) => Hysteresis::Enabled { history: Vec::new(), cooldown },
        }
    }

    /// When `key` was last let through, if ever (always `None` when disabled).
    pub open spec fn last_for(self, key: Seq<char>) -> Option<Timestamp> {
        match self {
            Hysteresis::Disabled => None,
            Hysteresis::Enabled { history, .. } => recorded(history@, key),
        }
    }

    /// Whether a notification for `user` goes out at `now`. Without a cooldown
    /// every call says yes. With one, the first call for a key says yes, and a
    /// later one says yes only once the cooldown has passed since the last yes;
    /// a yes records `now` for that key, and no other key is touched.
    pub fn should_notify(&mut self, now: Timestamp, user: &str) -> (r: bool)
        ensures
            match *old(self) {
                Hysteresis::Disabled => r && *final(self) == *old(self),
                Hysteresis::Enabled { cooldown, .. } => {
                    &&& r == match old(self).last_for(user@) {
                        None => true,
                        Some(last) => cooled_down(last, now, cooldown),
                    }
                    &&& (*final(self)) matches Hysteresis::Enabled { cooldown: c, .. } && c == cooldown
                    &&& forall|k: Seq<char>| k != user@ ==> #[trigger] final(self).last_for(k)
                        == old(self).last_for(k)
                    &&& final(self).last_for(user@) == if r {
                        Some(now)
                    } else {
                        old(self).last_for(user@)
                    }
                },
            },
    {
        match self {
            Hysteresis::Disabled => true,
            Hysteresis::Enabled { history, cooldown } => {
                let key = String::from_str(user);
                let mut i: usize = history.len();
                while i > 0
                    invariant
                        i <= history@.len(),
                        key@ == user@,
                        forall|j: int| i <= j < history@.len() ==> (#[trigger] history@[j]).0@ != user@,
                    ensures
                        i > 0 ==> history@[i - 1].0@ == user@,
                    decreases i,
                {
                    if history[i - 1].0 == key {
                        break;
                    }
                    i = i - 1;
                }
                proof {
                    if i == 0 {
                        lemma_recorded_absent(history@, user@);
                    }
                }
                if i == 0 {
                    proof {
                        assert forall|k: Seq<char>| true implies recorded(history@.push((key, now)), k) == if k == user@ { Some(now) } else { recorded(history@, k) } by {
                            lemma_recorded_push(history@, (key, now), k);
                        }
                    }
                    history.push((key, now));
                    true
                } else {
                    let idx = i - 1;
                    let ghost h = history@;
                    let last = history[idx].1;
                    proof {
                        assert(latest_for(h, idx as int));
                        assert(h.update(idx as int, h[idx as int]) =~= h);
                        lemma_recorded_update(h, idx as int, h[idx as int], user@);
                    }
                    if now.cooled_down_since(last, *cooldown) {
                        proof {
                            lemma_recorded_update(h, idx as int, (key, now), user@);
                            assert forall|k: Seq<char>| k != user@ implies recorded(h.update(idx as int, (key, now)), k) == recorded(h, k) by {
                                lemma_recorded_update(h, idx as int, (key, now), k);
                            }
                        }
                        history.set(idx, (key, now));
                        true
                    } else {
                        false
                    }
                }
            },
        }
    }
}

} // verus!
