use crate::config::{within, Config, Period};
use crate::mac_address::MacAddress;
use crate::metadata::{display_text, Metadata};
use crate::network::{arp_request_bytes, arp_request_frame, Event, Ipv4Address, NetworkAddresses};
use crate::telegram::Message;
use crate::time::{cooled_down, Duration, TimeOfDay, Timestamp};
use vstd::prelude::*;

verus! {

/// Seconds between two clock ticks.
pub const TICK_SECS: u32 = 20;

/// How many probes in a row may go unanswered: a device is taken to have
/// left on the tick at which its count would reach this.
pub const ALLOWED_PACKETS_LOST: u32 = 3;

/// Whether a device came or went.
#[derive(Clone, Copy, Debug, PartialEq, Eq, Structural)]
pub enum Status {
    Arrived,
    Left,
}

pub open spec fn status_text(s: Status) -> Seq<char> {
    match s {
        Status::Arrived => "arrived"@,
        Status::Left => "left"@,
    }
}

impl Status {
    pub fn to_string(&self) -> (r: String)
        ensures
            r@ == status_text(*self),
    {
        match self {
            Status::Arrived => String::from_str("arrived"),
            Status::Left => String::from_str("left"),
        }
    }
}

/// A device believed to be online: where it was last seen, and how many
/// probes have gone to it since it last answered.
#[derive(Clone, Copy, Debug)]
pub struct Tracking {
    pub mac: MacAddress,
    pub ip: Ipv4Address,
    pub outstanding: u32,
}

/// The entry of the online table for the hardware address `mac`, if any
/// (the latest one, should there be several).
pub open spec fn lookup(s: Seq<Tracking>, mac: Seq<u8>) -> Option<Tracking>
    decreases s.len(),
{
    if s.len() == 0 {
        None
    } else if s.last().mac.0@ == mac {
        Some(s.last())
    } else {
        lookup(s.drop_last(), mac)
    }
}

/// No hardware address has two entries.
pub open spec fn unique(s: Seq<Tracking>) -> bool
    decreases s.len(),
{
    s.len() == 0 || (unique(s.drop_last()) && lookup(s.drop_last(), s.last().mac.0@) is None)
}

/// Whether an entry is kept, and probed again, at a tick.
pub open spec fn survives(t: Tracking) -> bool {
    t.outstanding + 1 < ALLOWED_PACKETS_LOST
}

/// An entry once one more probe has gone to it.
pub open spec fn probed(t: Tracking) -> Tracking {
    Tracking { mac: t.mac, ip: t.ip, outstanding: (t.outstanding + 1) as u32 }
}

/// The online table after a tick: the entries that survive, each with one
/// more probe outstanding.
pub open spec fn after_tick(s: Seq<Tracking>) -> Seq<Tracking>
    decreases s.len(),
{
    if s.len() == 0 {
        s
    } else {
        let p = after_tick(s.drop_last());
        if survives(s.last()) {
            p.push(probed(s.last()))
        } else {
            p
        }
    }
}

/// Where the probes of a tick go: the last known address of each entry that
/// survives it.
pub open spec fn probe_targets(s: Seq<Tracking>) -> Seq<NetworkAddresses>
    decreases s.len(),
{
    if s.len() == 0 {
        Seq::empty()
    } else {
        let p = probe_targets(s.drop_last());
        if survives(s.last()) {
            p.push(NetworkAddresses { mac: s.last().mac, ip: s.last().ip })
        } else {
            p
        }
    }
}

/// The devices that a tick finds gone.
pub open spec fn departures(s: Seq<Tracking>) -> Seq<MacAddress>
    decreases s.len(),
{
    if s.len() == 0 {
        Seq::empty()
    } else {
        let p = departures(s.drop_last());
        if survives(s.last()) {
            p
        } else {
            p.push(s.last().mac)
        }
    }
}

/// An entry after its device was seen alive at `ip`, when it is that device's.
pub open spec fn refreshed(t: Tracking, mac: MacAddress, ip: Ipv4Address) -> Tracking {
    if t.mac.0@ == mac.0@ {
        Tracking { mac: t.mac, ip, outstanding: 0 }
    } else {
        t
    }
}

pub open spec fn refresh(s: Seq<Tracking>, mac: MacAddress, ip: Ipv4Address) -> Seq<Tracking>
    decreases s.len(),
{
    if s.len() == 0 {
        s
    } else {
        refresh(s.drop_last(), mac, ip).push(refreshed(s.last(), mac, ip))
    }
}

/// The online table after a known device was seen alive at `ip`: its entry
/// is reset, or made if it had none.
pub open spec fn after_alive(s: Seq<Tracking>, mac: MacAddress, ip: Ipv4Address) -> Seq<Tracking> {
    if lookup(s, mac.0@) is Some {
        refresh(s, mac, ip)
    } else {
        s.push(Tracking { mac, ip, outstanding: 0 })
    }
}

/// Whether the rules name the hardware address `mac`.
pub open spec fn known(rules: Seq<(MacAddress, Metadata)>, mac: Seq<u8>) -> bool {
    exists|k: int| 0 <= k < rules.len() && (#[trigger] rules[k]).0.0@ == mac
}

/// Whether `k` is the first rule for `mac`.
pub open spec fn first_rule(rules: Seq<(MacAddress, Metadata)>, mac: Seq<u8>, k: int) -> bool {
    &&& 0 <= k < rules.len()
    &&& rules[k].0.0@ == mac
    &&& forall|j: int| 0 <= j < k ==> (#[trigger] rules[j]).0.0@ != mac
}

/// Whether a notification may go out at `now`, given when the last one did.
pub open spec fn gate_open(last: Option<Timestamp>, cooldown: Option<Duration>, now: Timestamp) -> bool {
    match cooldown {
        None => true,
        Some(c) => match last {
            None => true,
            Some(l) => cooled_down(l, now, c),
        },
    }
}

/// When the last notification was sent, after the cooldown was consulted at `now`.
pub open spec fn gate_record(last: Option<Timestamp>, cooldown: Option<Duration>, now: Timestamp) -> Option<
    Timestamp,
> {
    if cooldown is Some && gate_open(last, cooldown, now) {
        Some(now)
    } else {
        last
    }
}

/// Whether `time` falls in the quiet period, if there is one.
pub open spec fn quiet_at(q: Option<Period>, time: TimeOfDay) -> bool {
    match q {
        None => false,
        Some(p) => within(p.start, p.end, time),
    }
}

/// The text of a notification about a person.
pub open spec fn notification_text(md: Metadata, status: Status) -> Seq<char> {
    display_text(md.name, md.icon, md.username) + seq![' '] + status_text(status)
}

/// What a clock tick asks of the caller: the probes to send, and the devices
/// that have left.
pub struct Tick {
    pub probes: Vec<NetworkAddresses>,
    pub departed: Vec<MacAddress>,
}

/// The presence tracker: the known devices with what to tell of them, and
/// the table of those online.
pub struct HouseRat {
    pub network_addresses: NetworkAddresses,
    pub cooldown: Option<Duration>,
    pub quiet_period: Option<Period>,
    pub rules: Vec<(MacAddress, Metadata)>,
    pub online: Vec<Tracking>,
}

/// What `notify` does: the first rule for `mac` decides, through its
/// person's cooldown, whether a message is sent, and records when it is.
pub open spec fn notified(
    before: HouseRat,
    after: HouseRat,
    mac: MacAddress,
    status: Status,
    now: Timestamp,
    time: TimeOfDay,
    r: Option<Message>,
) -> bool {
    &&& after.network_addresses == before.network_addresses
    &&& after.cooldown == before.cooldown
    &&& after.quiet_period == before.quiet_period
    &&& after.online@ == before.online@
    &&& (!known(before.rules@, mac.0@) ==> r is None && after.rules@ == before.rules@)
    &&& forall|k: int| #[trigger]
        first_rule(before.rules@, mac.0@, k) ==> {
            let md = before.rules@[k].1;
            &&& (r is Some <==> gate_open(md.last_notified, before.cooldown, now))
            &&& (r matches Some(msg) ==> msg.chat_id == md.chat_id && msg.text@ == notification_text(
                md,
                status,
            ) && msg.parse_mode@ == "Markdown"@ && msg.disable_notification == quiet_at(
                before.quiet_period,
                time,
            ))
            &&& after.rules@ == before.rules@.update(
                k,
                (
                    before.rules@[k].0,
                    Metadata {
                        last_notified: gate_record(md.last_notified, before.cooldown, now),
                        ..md
                    },
                ),
            )
        }
}

proof fn lemma_lookup_push(s: Seq<Tracking>, x: Tracking, m: Seq<u8>)
    ensures
        lookup(s.push(x), m) == if x.mac.0@ == m {
            Some(x)
        } else {
            lookup(s, m)
        },
{
    assert(s.push(x).drop_last() =~= s);
}

proof fn lemma_unique_push(s: Seq<Tracking>, x: Tracking)
    requires
        unique(s),
        lookup(s, x.mac.0@) is None,
    ensures
        unique(s.push(x)),
{
    assert(s.push(x).drop_last() =~= s);
}

/// A tick keeps the entry of a device, with one more probe outstanding,
/// exactly when that entry survives it; it makes no entry.
pub proof fn lemma_lookup_after_tick(s: Seq<Tracking>, m: Seq<u8>)
    requires
        unique(s),
    ensures
        lookup(after_tick(s), m) == match lookup(s, m) {
            Some(t) => if survives(t) {
                Some(probed(t))
            } else {
                None
            },
            None => None,
        },
    decreases s.len(),
{
    if s.len() > 0 {
        lemma_lookup_after_tick(s.drop_last(), m);
        if survives(s.last()) {
            lemma_lookup_push(after_tick(s.drop_last()), probed(s.last()), m);
        }
    }
}

proof fn lemma_unique_after_tick(s: Seq<Tracking>)
    requires
        unique(s),
    ensures
        unique(after_tick(s)),
    decreases s.len(),
{
    if s.len() > 0 {
        lemma_unique_after_tick(s.drop_last());
        if survives(s.last()) {
            lemma_lookup_after_tick(s.drop_last(), s.last().mac.0@);
            lemma_unique_push(after_tick(s.drop_last()), probed(s.last()));
        }
    }
}

/// A device whose entry does not survive a tick is among its departures.
pub proof fn lemma_departs(s: Seq<Tracking>, m: Seq<u8>)
    requires
        lookup(s, m) matches Some(t) && !survives(t),
    ensures
        exists|j: int| 0 <= j < departures(s).len() && (#[trigger] departures(s)[j]).0@ == m,
    decreases s.len(),
{
    if s.last().mac.0@ == m {
        let d = departures(s);
        assert(d[d.len() - 1].0@ == m);
    } else {
        lemma_departs(s.drop_last(), m);
        let j = choose|j: int| 0 <= j < departures(s.drop_last()).len() && (#[trigger] departures(
            s.drop_last(),
        )[j]).0@ == m;
        if survives(s.last()) {
            assert(departures(s)[j] == departures(s.drop_last())[j]);
        } else {
            assert(departures(s)[j] == departures(s.drop_last())[j]);
        }
    }
}

proof fn lemma_lookup_refresh(s: Seq<Tracking>, mac: MacAddress, ip: Ipv4Address, m: Seq<u8>)
    ensures
        lookup(refresh(s, mac, ip), m) == match lookup(s, m) {
            Some(t) => Some(refreshed(t, mac, ip)),
            None => None,
        },
    decreases s.len(),
{
    if s.len() > 0 {
        lemma_lookup_refresh(s.drop_last(), mac, ip, m);
        lemma_lookup_push(refresh(s.drop_last(), mac, ip), refreshed(s.last(), mac, ip), m);
    }
}

proof fn lemma_unique_refresh(s: Seq<Tracking>, mac: MacAddress, ip: Ipv4Address)
    requires
        unique(s),
    ensures
        unique(refresh(s, mac, ip)),
    decreases s.len(),
{
    if s.len() > 0 {
        lemma_unique_refresh(s.drop_last(), mac, ip);
        lemma_lookup_refresh(s.drop_last(), mac, ip, s.last().mac.0@);
        lemma_unique_push(refresh(s.drop_last(), mac, ip), refreshed(s.last(), mac, ip));
    }
}

/// Seeing a device alive gives it an entry with no probe outstanding at the
/// address it was seen at, and touches no other device's entry.
pub proof fn lemma_lookup_after_alive(s: Seq<Tracking>, mac: MacAddress, ip: Ipv4Address, m: Seq<u8>)
    ensures
        lookup(after_alive(s, mac, ip), m) == if m == mac.0@ {
            Some(
                Tracking {
                    mac: match lookup(s, m) {
                        Some(t) => t.mac,
                        None => mac,
                    },
                    ip,
                    outstanding: 0,
                },
            )
        } else {
            lookup(s, m)
        },
{
    lemma_lookup_mac(s, m);
    if lookup(s, mac.0@) is Some {
        lemma_lookup_refresh(s, mac, ip, m);
    } else {
        lemma_lookup_push(s, Tracking { mac, ip, outstanding: 0 }, m);
    }
}

proof fn lemma_lookup_mac(s: Seq<Tracking>, m: Seq<u8>)
    ensures
        lookup(s, m) matches Some(t) ==> t.mac.0@ == m,
    decreases s.len(),
{
    if s.len() > 0 {
        lemma_lookup_mac(s.drop_last(), m);
    }
}

proof fn lemma_unique_after_alive(s: Seq<Tracking>, mac: MacAddress, ip: Ipv4Address)
    requires
        unique(s),
    ensures
        unique(after_alive(s, mac, ip)),
{
    if lookup(s, mac.0@) is Some {
        lemma_unique_refresh(s, mac, ip);
    } else {
        lemma_unique_push(s, Tracking { mac, ip, outstanding: 0 });
    }
}

proof fn lemma_refresh_absent(s: Seq<Tracking>, mac: MacAddress, ip: Ipv4Address)
    requires
        lookup(s, mac.0@) is None,
    ensures
        refresh(s, mac, ip) == s,
    decreases s.len(),
{
    if s.len() > 0 {
        lemma_refresh_absent(s.drop_last(), mac, ip);
        assert(refresh(s, mac, ip) =~= s);
    }
}

proof fn lemma_refresh_twice(s: Seq<Tracking>, mac: MacAddress, ip: Ipv4Address)
    ensures
        refresh(refresh(s, mac, ip), mac, ip) == refresh(s, mac, ip),
    decreases s.len(),
{
    if s.len() > 0 {
        let r = refresh(s, mac, ip);
        lemma_refresh_twice(s.drop_last(), mac, ip);
        assert(r.drop_last() =~= refresh(s.drop_last(), mac, ip));
        assert(refresh(r, mac, ip) =~= r);
    }
}

proof fn lemma_refresh_len(s: Seq<Tracking>, mac: MacAddress, ip: Ipv4Address)
    ensures
        refresh(s, mac, ip).len() == s.len(),
    decreases s.len(),
{
    if s.len() > 0 {
        lemma_refresh_len(s.drop_last(), mac, ip);
    }
}

/// Loss tolerance: a device whose entry has no probe outstanding (as an
/// `Alive` leaves it) stays online through two ticks without an answer, with
/// one and then two probes outstanding; the third tick reports it departed
/// and drops its entry.
pub proof fn lemma_loss_threshold(s: Seq<Tracking>, m: Seq<u8>)
    requires
        unique(s),
        lookup(s, m) matches Some(t) && t.outstanding == 0,
    ensures
        lookup(after_tick(s), m) matches Some(t1) && t1.outstanding == 1,
        lookup(after_tick(after_tick(s)), m) matches Some(t2) && t2.outstanding == 2,
        exists|j: int|
            0 <= j < departures(after_tick(after_tick(s))).len() && (#[trigger] departures(
                after_tick(after_tick(s)),
            )[j]).0@ == m,
        lookup(after_tick(after_tick(after_tick(s))), m) is None,
{
    lemma_lookup_after_tick(s, m);
    lemma_unique_after_tick(s);
    lemma_lookup_after_tick(after_tick(s), m);
    lemma_unique_after_tick(after_tick(s));
    lemma_lookup_after_tick(after_tick(after_tick(s)), m);
    lemma_departs(after_tick(after_tick(s)), m);
}

/// An `Alive` that arrives before the tick that would drop a device resets
/// its count, so that the next tick keeps it online.
pub proof fn lemma_alive_prevents_eviction(s: Seq<Tracking>, mac: MacAddress, ip: Ipv4Address)
    requires
        unique(s),
    ensures
        lookup(after_alive(s, mac, ip), mac.0@) matches Some(t) && t.outstanding == 0,
        lookup(after_tick(after_alive(s, mac, ip)), mac.0@) matches Some(t) && t.outstanding == 1,
{
    lemma_lookup_after_alive(s, mac, ip, mac.0@);
    lemma_unique_after_alive(s, mac, ip);
    lemma_lookup_after_tick(after_alive(s, mac, ip), mac.0@);
}

/// Seeing an online device alive again keeps its entry, the same device and
/// no new one, with no probe outstanding and the address it was seen at; no
/// other entry changes.
pub proof fn lemma_alive_idempotent(s: Seq<Tracking>, mac: MacAddress, ip: Ipv4Address)
    requires
        lookup(s, mac.0@) is Some,
    ensures
        after_alive(s, mac, ip).len() == s.len(),
        lookup(after_alive(s, mac, ip), mac.0@) == Some(
            Tracking { mac: lookup(s, mac.0@)->0.mac, ip, outstanding: 0 },
        ),
        forall|m: Seq<u8>| m != mac.0@ ==> #[trigger] lookup(after_alive(s, mac, ip), m) == lookup(s, m),
{
    lemma_refresh_len(s, mac, ip);
    lemma_lookup_after_alive(s, mac, ip, mac.0@);
    assert forall|m: Seq<u8>| m != mac.0@ implies #[trigger] lookup(after_alive(s, mac, ip), m) == lookup(s, m) by {
        lemma_lookup_after_alive(s, mac, ip, m);
    }
}

/// Seeing a device alive twice at the same address does what seeing it
/// once does.
pub proof fn lemma_alive_twice(s: Seq<Tracking>, mac: MacAddress, ip: Ipv4Address)
    ensures
        after_alive(after_alive(s, mac, ip), mac, ip) == after_alive(s, mac, ip),
{
    let once = after_alive(s, mac, ip);
    if lookup(s, mac.0@) is Some {
        lemma_lookup_refresh(s, mac, ip, mac.0@);
        lemma_refresh_twice(s, mac, ip);
    } else {
        let t = Tracking { mac, ip, outstanding: 0 };
        lemma_lookup_push(s, t, mac.0@);
        lemma_refresh_absent(s, mac, ip);
        assert(once.drop_last() =~= s);
        assert(refresh(once, mac, ip) =~= once);
    }
}

impl HouseRat {
    /// The tracker's invariant: one entry per device, each with fewer probes
    /// outstanding than are allowed to be lost.
    pub open spec fn wf(&self) -> bool {
        &&& unique(self.online@)
        &&& forall|j: int| 0 <= j < self.online@.len() ==> (#[trigger] self.online@[j]).outstanding
            < ALLOWED_PACKETS_LOST
    }

    /// A tracker with nobody online yet.
    pub fn new(config: Config) -> (r: HouseRat)
        ensures
            r.wf(),
            r.network_addresses == config.interface.addresses,
            r.cooldown == config.cooldown,
            r.quiet_period == config.quiet_period,
            r.rules == config.rules,
            r.online@.len() == 0,
    {
        HouseRat {
            network_addresses: config.interface.addresses,
            cooldown: config.cooldown,
            quiet_period: config.quiet_period,
            rules: config.rules,
            online: Vec::new(),
        }
    }

    fn is_known(&self, mac: &MacAddress) -> (r: bool)
        ensures
            r == known(self.rules@, mac.0@),
    {
        let mut k: usize = 0;
        while k < self.rules.len()
            invariant
                k <= self.rules@.len(),
                forall|j: int| 0 <= j < k ==> (#[trigger] self.rules@[j]).0.0@ != mac.0@,
            decreases self.rules@.len() - k,
        {
            if self.rules[k].0 == *mac {
                return true;
            }
            k = k + 1;
        }
        false
    }

    fn handle_alive(&mut self, mac: MacAddress, ip: Ipv4Address)
        requires
            old(self).wf(),
        ensures
            final(self).wf(),
            final(self).network_addresses == old(self).network_addresses,
            final(self).cooldown == old(self).cooldown,
            final(self).quiet_period == old(self).quiet_period,
            final(self).rules@ == old(self).rules@,
            final(self).online@ == after_alive(old(self).online@, mac, ip),
    {
        let ghost s = self.online@;
        let mut next: Vec<Tracking> = Vec::new();
        let mut found = false;
        let mut i: usize = 0;
        while i < self.online.len()
            invariant
                self.online@ == s,
                i <= s.len(),
                next@ == refresh(s.subrange(0, i as int), mac, ip),
                found == lookup(s.subrange(0, i as int), mac.0@) is Some,
                forall|j: int| 0 <= j < next@.len() ==> (#[trigger] next@[j]).outstanding
                    < ALLOWED_PACKETS_LOST,
                forall|j: int| 0 <= j < s.len() ==> (#[trigger] s[j]).outstanding
                    < ALLOWED_PACKETS_LOST,
            decreases s.len() - i,
        {
            let t = self.online[i];
            proof {
                assert(s.subrange(0, i + 1).drop_last() =~= s.subrange(0, i as int));
            }
            if t.mac == mac {
                next.push(Tracking { mac: t.mac, ip, outstanding: 0 });
                found = true;
            } else {
                next.push(t);
            }
            i = i + 1;
        }
        proof {
            assert(s.subrange(0, s.len() as int) =~= s);
        }
        if found {
            self.online = next;
        } else {
            let ghost before = self.online@;
            self.online.push(Tracking { mac, ip, outstanding: 0 });
            assert forall|j: int| 0 <= j < self.online@.len() implies (#[trigger] self.online@[j]).outstanding
                < ALLOWED_PACKETS_LOST by {
                if j < before.len() {
                    assert(self.online@[j] == before[j]);
                }
            }
        }
        proof {
            lemma_unique_after_alive(s, mac, ip);
        }
    }

    /// Tells of a device that came or went, if the rules know it: through its
    /// person's cooldown gate, and marked silent in the quiet period.
    pub fn notify(&mut self, mac: MacAddress, status: Status, now: Timestamp, time: TimeOfDay) -> (r:
        Option<Message>)
        requires
            old(self).wf(),
        ensures
            final(self).wf(),
            notified(*old(self), *final(self), mac, status, now, time, r),
    {
        let mut k: usize = 0;
        while k < self.rules.len()
            invariant
                k <= self.rules@.len(),
                forall|j: int| 0 <= j < k ==> (#[trigger] self.rules@[j]).0.0@ != mac.0@,
            ensures
                k < self.rules@.len() ==> self.rules@[k as int].0.0@ == mac.0@,
            decreases self.rules@.len() - k,
        {
            if self.rules[k].0 == mac {
                break;
            }
            k = k + 1;
        }
        if k == self.rules.len() {
            return None;
        }
        assert(first_rule(self.rules@, mac.0@, k as int));
        let ghost rules0 = self.rules@;
        let (m, mut md) = self.rules.remove(k);
        let open = md.should_notify(&self.cooldown, now);
        let r = if open {
            let quiet = match &self.quiet_period {
                Some(p) => p.is_between(time),
                None => false,
            };
            let mut text = md.to_string();
            proof {
                reveal_strlit(" ");
            }
            text.append(" ");
            let st = status.to_string();
            text.append(st.as_str());
            Some(Message::new(md.chat_id, text, quiet))
        } else {
            None
        };
        self.rules.insert(k, (m, md));
        proof {
            let md0 = rules0[k as int].1;
            assert(md.last_notified == gate_record(md0.last_notified, self.cooldown, now));
            assert(open == gate_open(md0.last_notified, self.cooldown, now));
            assert(md == Metadata { last_notified: gate_record(md0.last_notified, self.cooldown, now), ..md0 });
            assert(m == rules0[k as int].0);
            assert(self.rules@ =~= rules0.update(k as int, (m, md)));
            assert forall|j: int| #[trigger] first_rule(rules0, mac.0@, j) implies j == k by {
                if j < k {
                } else if j > k {
                    assert(rules0[k as int].0.0@ == mac.0@);
                }
            }
            assert(rules0 == old(self).rules@);
            assert(self.online@ == old(self).online@);
            assert(known(rules0, mac.0@));
            assert(r is Some <==> gate_open(md0.last_notified, old(self).cooldown, now));
            if r is Some {
                assert(r->0.text@ == notification_text(md0, status));
                assert(r->0.disable_notification == quiet_at(old(self).quiet_period, time));
            }
        }
        r
    }

    /// Acts on one classified frame, at `now` and local time `time`.
    /// An `Alive` of a known device resets or makes its entry; a `Connected`
    /// of a device that is not online is told as an arrival, but makes no
    /// entry (only `Alive` does); nothing else changes anything.
    pub fn handle_event(&mut self, event: Event, now: Timestamp, time: TimeOfDay) -> (r: Option<Message>)
        requires
            old(self).wf(),
        ensures
            final(self).wf(),
            match event {
                Event::Ignored => r is None && *final(self) == *old(self),
                Event::Alive { mac, ip } => {
                    &&& r is None
                    &&& final(self).network_addresses == old(self).network_addresses
                    &&& final(self).cooldown == old(self).cooldown
                    &&& final(self).quiet_period == old(self).quiet_period
                    &&& final(self).rules@ == old(self).rules@
                    &&& final(self).online@ == if known(old(self).rules@, mac.0@) {
                        after_alive(old(self).online@, mac, ip)
                    } else {
                        old(self).online@
                    }
                },
                Event::Connected(mac) => if lookup(old(self).online@, mac.0@) is Some {
                    r is None && *final(self) == *old(self)
                } else {
                    notified(*old(self), *final(self), mac, Status::Arrived, now, time, r)
                },
            },
    {
        match event {
            Event::Connected(mac) => {
                if self.is_online(&mac) {
                    None
                } else {
                    self.notify(mac, Status::Arrived, now, time)
                }
            },
            Event::Alive { mac, ip } => {
                if self.is_known(&mac) {
                    self.handle_alive(mac, ip);
                }
                None
            },
            Event::Ignored => None,
        }
    }

    fn is_online(&self, mac: &MacAddress) -> (r: bool)
        ensures
            r == lookup(self.online@, mac.0@) is Some,
    {
        let mut i: usize = self.online.len();
        assert(self.online@.subrange(0, i as int) =~= self.online@);
        while i > 0
            invariant
                i <= self.online@.len(),
                lookup(self.online@, mac.0@) is Some <==> lookup(self.online@.subrange(0, i as int), mac.0@) is Some,
            decreases i,
        {
            let ghost p = self.online@.subrange(0, i as int);
            assert(p.drop_last() =~= self.online@.subrange(0, i - 1));
            if self.online[i - 1].mac == *mac {
                return true;
            }
            i = i - 1;
        }
        false
    }

    /// One clock tick: every entry that survives it gets a probe at its last
    /// known address and one more probe outstanding (whether or not the
    /// caller manages to send it); the others are dropped and reported as
    /// departed.
    pub fn handle_clock(&mut self) -> (r: Tick)
        requires
            old(self).wf(),
        ensures
            final(self).wf(),
            final(self).network_addresses == old(self).network_addresses,
            final(self).cooldown == old(self).cooldown,
            final(self).quiet_period == old(self).quiet_period,
            final(self).rules@ == old(self).rules@,
            final(self).online@ == after_tick(old(self).online@),
            r.probes@ == probe_targets(old(self).online@),
            r.departed@ == departures(old(self).online@),
    {
        let ghost s = self.online@;
        let mut kept: Vec<Tracking> = Vec::new();
        let mut probes: Vec<NetworkAddresses> = Vec::new();
        let mut departed: Vec<MacAddress> = Vec::new();
        let mut i: usize = 0;
        while i < self.online.len()
            invariant
                self.online@ == s,
                i <= s.len(),
                kept@ == after_tick(s.subrange(0, i as int)),
                probes@ == probe_targets(s.subrange(0, i as int)),
                departed@ == departures(s.subrange(0, i as int)),
                forall|j: int| 0 <= j < kept@.len() ==> (#[trigger] kept@[j]).outstanding
                    < ALLOWED_PACKETS_LOST,
                forall|j: int| 0 <= j < s.len() ==> (#[trigger] s[j]).outstanding
                    < ALLOWED_PACKETS_LOST,
            decreases s.len() - i,
        {
            let t = self.online[i];
            proof {
                assert(s.subrange(0, i + 1).drop_last() =~= s.subrange(0, i as int));
            }
            if t.outstanding + 1 < ALLOWED_PACKETS_LOST {
                kept.push(Tracking { mac: t.mac, ip: t.ip, outstanding: t.outstanding + 1 });
                probes.push(NetworkAddresses::new(t.mac, t.ip));
            } else {
                departed.push(t.mac);
            }
            i = i + 1;
        }
        proof {
            assert(s.subrange(0, s.len() as int) =~= s);
            lemma_unique_after_tick(s);
        }
        self.online = kept;
        Tick { probes, departed }
    }

    /// The probe frame to send to a device whose address was resolved.
    pub fn handle_resolve(&self, mac: MacAddress, ip: Ipv4Address) -> (r: Vec<u8>)
        ensures
            r@ == arp_request_bytes(self.network_addresses, NetworkAddresses { mac, ip }),
    {
        arp_request_frame(&self.network_addresses, &NetworkAddresses::new(mac, ip))
    }
}

} // verus!
