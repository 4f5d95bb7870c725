use crate::error::Error;
use crate::mac_address::MacAddress;
use crate::metadata::Metadata;
use crate::network::{IpAddress, Ipv4Address, NetworkAddresses};
use crate::time::{Duration, TimeOfDay};
use vstd::prelude::*;

verus! {

/// A span of the day, from `start` to `end` inclusive; where `start` comes
/// after `end` the span runs over midnight.
#[derive(Clone, Copy, Debug)]
pub struct Period {
    pub start: TimeOfDay,
    pub end: TimeOfDay,
}

/// Whether `t` falls within the span from `start` to `end`.
pub open spec fn within(start: TimeOfDay, end: TimeOfDay, t: TimeOfDay) -> bool {
    if start.spec_le(end) {
        start.spec_le(t) && t.spec_le(end)
    } else {
        start.spec_le(t) || t.spec_le(end)
    }
}

impl Period {
    pub fn new(start: TimeOfDay, end: TimeOfDay) -> (r: Period)
        ensures
            r.start == start,
            r.end == end,
    {
        Period { start, end }
    }

    pub fn is_between(&self, time: TimeOfDay) -> (r: bool)
        ensures
            r == within(self.start, self.end, time),
    {
        if self.start.le(&self.end) {
            self.start.le(&time) && time.le(&self.end)
        } else {
            self.start.le(&time) || time.le(&self.end)
        }
    }
}

/// One person of the configuration: who they are, whom to tell when their
/// devices come and go (`subscriber`, the name of another person), and the
/// chat in which they themselves are told.
#[derive(Debug)]
pub struct User {
    pub name: String,
    pub icon: Option<String>,
    pub username: Option<String>,
    pub chat_id: Option<i64>,
    pub subscriber: Option<String>,
    pub devices: Vec<MacAddress>,
}

/// Why a configuration is refused, by the positions of the persons and
/// devices concerned.
pub enum ConfigFault {
    NoDevices { user: int },
    NoSubscriber { user: int },
    UnknownUser { user: int },
    MissingChatId { subscriber: int },
    DuplicateDevice { user: int, device: int, orig_user: int },
}

/// The person of that name (the last one, should two share it).
pub open spec fn find_user(users: Seq<User>, name: Seq<char>) -> Option<int>
    decreases users.len(),
{
    if users.len() == 0 {
        None
    } else if users.last().name@ == name {
        Some(users.len() - 1)
    } else {
        find_user(users.drop_last(), name)
    }
}

/// The rule, among those made so far, for a device (a device, its owner and
/// its owner's subscriber, by position).
pub open spec fn find_device(rules: Seq<(MacAddress, int, int)>, m: Seq<u8>) -> Option<int>
    decreases rules.len(),
{
    if rules.len() == 0 {
        None
    } else if rules.last().0.0@ == m {
        Some(rules.len() - 1)
    } else {
        find_device(rules.drop_last(), m)
    }
}

/// The rules once the first `n` devices of person `owner` are added; a device
/// that already has a rule is refused.
pub open spec fn add_devices(
    rules: Seq<(MacAddress, int, int)>,
    devices: Seq<MacAddress>,
    n: nat,
    owner: int,
    sub: int,
) -> Result<Seq<(MacAddress, int, int)>, ConfigFault>
    decreases n,
{
    if n == 0 {
        Ok(rules)
    } else {
        match add_devices(rules, devices, (n - 1) as nat, owner, sub) {
            Err(e) => Err(e),
            Ok(r) => match find_device(r, devices[n - 1].0@) {
                Some(p) => Err(ConfigFault::DuplicateDevice { user: owner, device: n - 1, orig_user: r[p].1 }),
                None => Ok(r.push((devices[n - 1], owner, sub))),
            },
        }
    }
}

/// The rules once person `i` is taken into account.
pub open spec fn user_rules(users: Seq<User>, i: int, rules: Seq<(MacAddress, int, int)>) -> Result<
    Seq<(MacAddress, int, int)>,
    ConfigFault,
> {
    let u = users[i];
    match u.subscriber {
        Some(sub) => if u.devices@.len() == 0 {
            Err(ConfigFault::NoDevices { user: i })
        } else {
            match find_user(users, sub@) {
                None => Err(ConfigFault::UnknownUser { user: i }),
                Some(j) => if users[j].chat_id is None {
                    Err(ConfigFault::MissingChatId { subscriber: j })
                } else {
                    add_devices(rules, u.devices@, u.devices@.len(), i, j)
                },
            }
        },
        None => if u.devices@.len() > 0 {
            Err(ConfigFault::NoSubscriber { user: i })
        } else {
            Ok(rules)
        },
    }
}

/// The rules made from the first `n` persons, or the first fault met.
pub open spec fn make_rules(users: Seq<User>, n: nat) -> Result<Seq<(MacAddress, int, int)>, ConfigFault>
    decreases n,
{
    if n == 0 {
        Ok(Seq::empty())
    } else {
        match make_rules(users, (n - 1) as nat) {
            Err(e) => Err(e),
            Ok(r) => user_rules(users, n - 1, r),
        }
    }
}

/// The error that reports a fault.
pub open spec fn reports(e: Error, f: ConfigFault, users: Seq<User>) -> bool {
    match f {
        ConfigFault::NoDevices { user } => e == Error::NoDevices { user: users[user].name },
        ConfigFault::NoSubscriber { user } => e == Error::NoSubscriber { user: users[user].name },
        ConfigFault::UnknownUser { user } => e == Error::UnknownUser {
            user: users[user].subscriber->0,
        },
        ConfigFault::MissingChatId { subscriber } => e == Error::MissingChatId {
            user: users[subscriber].name,
        },
        ConfigFault::DuplicateDevice { user, device, orig_user } => e == Error::DuplicateDevice {
            device: users[user].devices@[device],
            user: users[user].name,
            orig_user: users[orig_user].name,
        },
    }
}

/// Each rule made is the spec's: the device, and the metadata of its owner
/// with the name and chat of the owner's subscriber.
pub open spec fn rules_agree(
    rules: Seq<(MacAddress, Metadata)>,
    sp: Seq<(MacAddress, int, int)>,
    users: Seq<User>,
) -> bool {
    &&& rules.len() == sp.len()
    &&& forall|k: int|
        0 <= k < rules.len() ==> {
            let (d, i, j) = #[trigger] sp[k];
            &&& 0 <= i < users.len()
            &&& 0 <= j < users.len()
            &&& rules[k].0 == d
            &&& rules[k].1.name == users[i].name
            &&& rules[k].1.icon == users[i].icon
            &&& rules[k].1.username == users[i].username
            &&& rules[k].1.subscriber_name == users[j].name
            &&& users[j].chat_id == Some(rules[k].1.chat_id)
            &&& rules[k].1.last_notified is None
        }
}

proof fn lemma_make_rules_err(users: Seq<User>, a: nat, b: nat)
    requires
        a <= b,
        make_rules(users, a) is Err,
    ensures
        make_rules(users, b) == make_rules(users, a),
    decreases b - a,
{
    if a < b {
        lemma_make_rules_err(users, a, (b - 1) as nat);
    }
}

proof fn lemma_add_devices_err(
    rules: Seq<(MacAddress, int, int)>,
    devices: Seq<MacAddress>,
    a: nat,
    b: nat,
    owner: int,
    sub: int,
)
    requires
        a <= b,
        add_devices(rules, devices, a, owner, sub) is Err,
    ensures
        add_devices(rules, devices, b, owner, sub) == add_devices(rules, devices, a, owner, sub),
    decreases b - a,
{
    if a < b {
        lemma_add_devices_err(rules, devices, a, (b - 1) as nat, owner, sub);
    }
}

proof fn lemma_user_fault(users: Seq<User>, i: int)
    requires
        0 <= i < users.len(),
        forall|r: Seq<(MacAddress, int, int)>| #[trigger] user_rules(users, i, r) is Err,
    ensures
        make_rules(users, users.len()) is Err,
{
    if make_rules(users, i as nat) is Err {
        lemma_make_rules_err(users, i as nat, users.len());
    } else {
        assert(make_rules(users, (i + 1) as nat) == user_rules(users, i, make_rules(users, i as nat)->Ok_0));
        lemma_make_rules_err(users, (i + 1) as nat, users.len());
    }
}

/// A configuration in which a person has a subscriber but no devices is
/// refused.
pub proof fn lemma_subscriber_without_devices_refused(users: Seq<User>, i: int)
    requires
        0 <= i < users.len(),
        users[i].subscriber is Some,
        users[i].devices@.len() == 0,
    ensures
        make_rules(users, users.len()) is Err,
{
    lemma_user_fault(users, i);
}

/// A configuration in which a person has devices but no subscriber is
/// refused.
pub proof fn lemma_devices_without_subscriber_refused(users: Seq<User>, i: int)
    requires
        0 <= i < users.len(),
        users[i].subscriber is None,
        users[i].devices@.len() > 0,
    ensures
        make_rules(users, users.len()) is Err,
{
    lemma_user_fault(users, i);
}

/// Whether some rule is for the device `m`.
pub open spec fn has_device(r: Seq<(MacAddress, int, int)>, m: Seq<u8>) -> bool {
    exists|k: int| 0 <= k < r.len() && (#[trigger] r[k]).0.0@ == m
}

proof fn lemma_find_device(r: Seq<(MacAddress, int, int)>, m: Seq<u8>)
    ensures
        find_device(r, m) is Some <==> has_device(r, m),
    decreases r.len(),
{
    if r.len() > 0 {
        let p = r.drop_last();
        lemma_find_device(p, m);
        if has_device(p, m) {
            let k = choose|k: int| 0 <= k < p.len() && (#[trigger] p[k]).0.0@ == m;
            assert(r[k] == p[k]);
        }
        if has_device(r, m) && r.last().0.0@ != m {
            let k = choose|k: int| 0 <= k < r.len() && (#[trigger] r[k]).0.0@ == m;
            assert(p[k] == r[k]);
        }
    }
}

proof fn lemma_add_devices_ok(
    rules: Seq<(MacAddress, int, int)>,
    devices: Seq<MacAddress>,
    n: nat,
    owner: int,
    sub: int,
)
    requires
        n <= devices.len(),
        add_devices(rules, devices, n, owner, sub) is Ok,
    ensures
        ({
            let r = add_devices(rules, devices, n, owner, sub)->Ok_0;
            &&& r.len() >= rules.len()
            &&& forall|k: int| 0 <= k < rules.len() ==> #[trigger] r[k] == rules[k]
            &&& forall|a: int| 0 <= a < n ==> has_device(r, (#[trigger] devices[a]).0@)
        }),
    decreases n,
{
    if n > 0 {
        lemma_add_devices_ok(rules, devices, (n - 1) as nat, owner, sub);
        let p = add_devices(rules, devices, (n - 1) as nat, owner, sub)->Ok_0;
        let r = p.push((devices[n - 1], owner, sub));
        assert(r[p.len() as int].0.0@ == devices[n - 1].0@);
        assert forall|a: int| 0 <= a < n implies has_device(r, (#[trigger] devices[a]).0@) by {
            if a < n - 1 {
                let k = choose|k: int| 0 <= k < p.len() && (#[trigger] p[k]).0.0@ == devices[a].0@;
                assert(r[k] == p[k]);
            }
        }
    }
}

proof fn lemma_has_device_extends(r: Seq<(MacAddress, int, int)>, r2: Seq<(MacAddress, int, int)>, m: Seq<u8>)
    requires
        has_device(r, m),
        r2.len() >= r.len(),
        forall|k: int| 0 <= k < r.len() ==> #[trigger] r2[k] == r[k],
    ensures
        has_device(r2, m),
{
    let k = choose|k: int| 0 <= k < r.len() && (#[trigger] r[k]).0.0@ == m;
    assert(r2[k] == r[k]);
}

proof fn lemma_user_rules_extends(users: Seq<User>, i: int, r: Seq<(MacAddress, int, int)>, m: Seq<u8>)
    requires
        0 <= i < users.len(),
        user_rules(users, i, r) is Ok,
        has_device(r, m),
    ensures
        has_device(user_rules(users, i, r)->Ok_0, m),
{
    let u = users[i];
    if u.subscriber is Some {
        lemma_add_devices_ok(r, u.devices@, u.devices@.len(), i, find_user(users, u.subscriber->0@)->0);
        lemma_has_device_extends(r, user_rules(users, i, r)->Ok_0, m);
    }
}

proof fn lemma_claimed(users: Seq<User>, n: nat, i: int, a: int)
    requires
        0 <= i < n <= users.len(),
        make_rules(users, n) is Ok,
        users[i].subscriber is Some,
        0 <= a < users[i].devices@.len(),
    ensures
        has_device(make_rules(users, n)->Ok_0, users[i].devices@[a].0@),
    decreases n,
{
    let prev = make_rules(users, (n - 1) as nat);
    if n - 1 == i {
        let u = users[i];
        lemma_add_devices_ok(prev->Ok_0, u.devices@, u.devices@.len(), i, find_user(users, u.subscriber->0@)->0);
    } else {
        lemma_claimed(users, (n - 1) as nat, i, a);
        lemma_user_rules_extends(users, n - 1, prev->Ok_0, users[i].devices@[a].0@);
    }
}

proof fn lemma_met_again(
    rules: Seq<(MacAddress, int, int)>,
    devices: Seq<MacAddress>,
    n: nat,
    b: int,
    owner: int,
    sub: int,
)
    requires
        0 <= b < n <= devices.len(),
        add_devices(rules, devices, b as nat, owner, sub) is Ok,
        has_device(add_devices(rules, devices, b as nat, owner, sub)->Ok_0, devices[b].0@),
    ensures
        add_devices(rules, devices, n, owner, sub) is Err,
    decreases n,
{
    if n - 1 == b {
        lemma_find_device(add_devices(rules, devices, b as nat, owner, sub)->Ok_0, devices[b].0@);
    } else {
        lemma_met_again(rules, devices, (n - 1) as nat, b, owner, sub);
    }
}

/// A configuration in which one device is claimed twice, by two persons or
/// twice by the same one, is refused (the error names both owners).
pub proof fn lemma_duplicate_device_refused(users: Seq<User>, i: int, a: int, j: int, b: int)
    requires
        0 <= i <= j < users.len(),
        users[i].subscriber is Some,
        users[j].subscriber is Some,
        0 <= a < users[i].devices@.len(),
        0 <= b < users[j].devices@.len(),
        i == j ==> a < b,
        users[i].devices@[a].0@ == users[j].devices@[b].0@,
    ensures
        make_rules(users, users.len()) is Err,
{
    let m = users[j].devices@[b].0@;
    if make_rules(users, j as nat) is Err {
        lemma_make_rules_err(users, j as nat, users.len());
    } else {
        let r0 = make_rules(users, j as nat)->Ok_0;
        let u = users[j];
        assert(make_rules(users, (j + 1) as nat) == user_rules(users, j, r0));
        if user_rules(users, j, r0) is Ok {
            let sub = find_user(users, u.subscriber->0@)->0;
            let devs = u.devices@;
            if add_devices(r0, devs, b as nat, j, sub) is Err {
                lemma_add_devices_err(r0, devs, b as nat, devs.len(), j, sub);
            } else {
                let rb = add_devices(r0, devs, b as nat, j, sub)->Ok_0;
                lemma_add_devices_ok(r0, devs, b as nat, j, sub);
                if i < j {
                    lemma_claimed(users, j as nat, i, a);
                    lemma_has_device_extends(r0, rb, m);
                } else {
                    assert(has_device(rb, devs[a].0@));
                }
                lemma_met_again(r0, devs, devs.len(), b, j, sub);
            }
        }
        lemma_make_rules_err(users, (j + 1) as nat, users.len());
    }
}

fn clone_text(o: &Option<String>) -> (r: Option<String>)
    ensures
        r == *o,
{
    match o {
        Some(s) => Some(s.clone()),
        None => None,
    }
}

fn find_user_exec(users: &Vec<User>, name: &String) -> (r: Option<usize>)
    ensures
        match r {
            Some(j) => find_user(users@, name@) == Some(j as int) && j < users@.len(),
            None => find_user(users@, name@) is None,
        },
{
    let mut i: usize = users.len();
    assert(users@.subrange(0, i as int) =~= users@);
    while i > 0
        invariant
            i <= users@.len(),
            find_user(users@, name@) == find_user(users@.subrange(0, i as int), name@),
        decreases i,
    {
        assert(users@.subrange(0, i as int).drop_last() =~= users@.subrange(0, i - 1));
        if users[i - 1].name == *name {
            return Some(i - 1);
        }
        i = i - 1;
    }
    None
}

fn find_device_exec(rules: &Vec<(MacAddress, Metadata)>, Ghost(sp): Ghost<Seq<(MacAddress, int, int)>>, m: &MacAddress) -> (r: Option<usize>)
    requires
        rules@.len() == sp.len(),
        forall|k: int| 0 <= k < sp.len() ==> (#[trigger] sp[k]).0 == rules@[k].0,
    ensures
        match r {
            Some(p) => find_device(sp, m.0@) == Some(p as int) && p < sp.len(),
            None => find_device(sp, m.0@) is None,
        },
{
    let mut i: usize = rules.len();
    assert(sp.subrange(0, i as int) =~= sp);
    while i > 0
        invariant
            i <= sp.len(),
            rules@.len() == sp.len(),
            forall|k: int| 0 <= k < sp.len() ==> (#[trigger] sp[k]).0 == rules@[k].0,
            find_device(sp, m.0@) == find_device(sp.subrange(0, i as int), m.0@),
        decreases i,
    {
        assert(sp.subrange(0, i as int).drop_last() =~= sp.subrange(0, i - 1));
        assert(sp[i - 1].0 == rules@[i - 1].0);
        if rules[i - 1].0 == *m {
            return Some(i - 1);
        }
        i = i - 1;
    }
    None
}

/// Makes the table of known devices from the persons of the configuration,
/// in their order: each device of a person with a subscriber gets a rule
/// that tells the subscriber. Refused: a subscriber without devices, devices
/// without a subscriber, a subscriber that names no one or someone without a
/// chat, and a device claimed twice (naming both owners).
pub fn build_rules(users: &Vec<User>) -> (r: Result<Vec<(MacAddress, Metadata)>, Error>)
    ensures
        match make_rules(users@, users@.len()) {
            Ok(sp) => r matches Ok(rules) && rules_agree(rules@, sp, users@),
            Err(f) => r matches Err(e) && reports(e, f, users@),
        },
{
    let mut rules: Vec<(MacAddress, Metadata)> = Vec::new();
    let ghost mut sp: Seq<(MacAddress, int, int)> = Seq::empty();
    let mut i: usize = 0;
    while i < users.len()
        invariant
            i <= users@.len(),
            make_rules(users@, i as nat) == Ok::<Seq<(MacAddress, int, int)>, ConfigFault>(sp),
            rules_agree(rules@, sp, users@),
        decreases users@.len() - i,
    {
        let u = &users[i];
        proof {
            assert(make_rules(users@, (i + 1) as nat) == user_rules(users@, i as int, sp));
        }
        match &u.subscriber {
            None => {
                if u.devices.len() > 0 {
                    proof {
                        lemma_make_rules_err(users@, (i + 1) as nat, users@.len());
                    }
                    return Err(Error::NoSubscriber { user: u.name.clone() });
                }
            },
            Some(sub) => {
                if u.devices.len() == 0 {
                    proof {
                        lemma_make_rules_err(users@, (i + 1) as nat, users@.len());
                    }
                    return Err(Error::NoDevices { user: u.name.clone() });
                }
                let j = match find_user_exec(users, sub) {
                    None => {
                        proof {
                            lemma_make_rules_err(users@, (i + 1) as nat, users@.len());
                        }
                        return Err(Error::UnknownUser { user: sub.clone() });
                    },
                    Some(j) => j,
                };
                let s = &users[j];
                let chat_id = match s.chat_id {
                    None => {
                        proof {
                            lemma_make_rules_err(users@, (i + 1) as nat, users@.len());
                        }
                        return Err(Error::MissingChatId { user: s.name.clone() });
                    },
                    Some(c) => c,
                };
                let ghost sp0 = sp;
                let mut d: usize = 0;
                while d < u.devices.len()
                    invariant
                        i < users@.len(),
                        j < users@.len(),
                        *u == users@[i as int],
                        *s == users@[j as int],
                        s.chat_id == Some(chat_id),
                        d <= u.devices@.len(),
                        add_devices(sp0, u.devices@, d as nat, i as int, j as int) == Ok::<
                            Seq<(MacAddress, int, int)>,
                            ConfigFault,
                        >(sp),
                        rules_agree(rules@, sp, users@),
                        user_rules(users@, i as int, sp0) == add_devices(sp0, u.devices@, u.devices@.len(), i as int, j as int),
                        make_rules(users@, (i + 1) as nat) == user_rules(users@, i as int, sp0),
                    decreases u.devices@.len() - d,
                {
                    let dev = u.devices[d];
                    match find_device_exec(&rules, Ghost(sp), &dev) {
                        Some(p) => {
                            proof {
                                lemma_add_devices_err(sp0, u.devices@, (d + 1) as nat, u.devices@.len(), i as int, j as int);
                                lemma_make_rules_err(users@, (i + 1) as nat, users@.len());
                            }
                            return Err(
                                Error::DuplicateDevice {
                                    device: dev,
                                    user: u.name.clone(),
                                    orig_user: rules[p].1.name.clone(),
                                },
                            );
                        },
                        None => {},
                    }
                    let md = Metadata::new(
                        u.name.clone(),
                        clone_text(&u.icon),
                        clone_text(&u.username),
                        s.name.clone(),
                        chat_id,
                    );
                    rules.push((dev, md));
                    proof {
                        sp = sp.push((dev, i as int, j as int));
                    }
                    d = d + 1;
                }
            },
        }
        i = i + 1;
    }
    Ok(rules)
}

/// What the system reports of one network interface.
#[derive(Debug)]
pub struct InterfaceInfo {
    pub name: String,
    pub index: u32,
    pub mac: Option<MacAddress>,
    pub ips: Vec<IpAddress>,
}

/// The interface to listen and probe on, with its own addresses.
#[derive(Debug)]
pub struct Interface {
    pub name: String,
    pub index: u32,
    pub addresses: NetworkAddresses,
}

/// Whether `k` is the first interface called `name`.
pub open spec fn first_named(interfaces: Seq<InterfaceInfo>, name: Seq<char>, k: int) -> bool {
    &&& 0 <= k < interfaces.len()
    &&& interfaces[k].name@ == name
    &&& forall|j: int| 0 <= j < k ==> (#[trigger] interfaces[j]).name@ != name
}

/// The first IPv4 address of a list, if any.
pub open spec fn first_ipv4(ips: Seq<IpAddress>) -> Option<Ipv4Address>
    decreases ips.len(),
{
    if ips.len() == 0 {
        None
    } else {
        match ips[0] {
            IpAddress::V4(a) => Some(a),
            IpAddress::V6(_) => first_ipv4(ips.drop_first()),
        }
    }
}

fn find_ipv4(ips: &Vec<IpAddress>) -> (r: Option<Ipv4Address>)
    ensures
        r == first_ipv4(ips@),
{
    let mut i: usize = 0;
    assert(ips@.subrange(0, ips@.len() as int) =~= ips@);
    while i < ips.len()
        invariant
            i <= ips@.len(),
            first_ipv4(ips@) == first_ipv4(ips@.subrange(i as int, ips@.len() as int)),
        decreases ips@.len() - i,
    {
        let ghost rest = ips@.subrange(i as int, ips@.len() as int);
        assert(rest.drop_first() =~= ips@.subrange(i + 1, ips@.len() as int));
        assert(rest[0] == ips@[i as int]);
        match ips[i] {
            IpAddress::V4(a) => {
                return Some(a);
            },
            IpAddress::V6(_) => {},
        }
        i = i + 1;
    }
    None
}

impl Interface {
    /// Picks the interface called `name` among those the system reports (the
    /// first of that name): it needs a hardware address and an IPv4 address,
    /// of which the first is taken.
    pub fn from_name(name: &str, interfaces: Vec<InterfaceInfo>) -> (r: Result<Interface, Error>)
        ensures
            (forall|k: int| 0 <= k < interfaces@.len() ==> (#[trigger] interfaces@[k]).name@ != name@)
                ==> (r matches Err(Error::UnknownInterface { interface }) && interface@ == name@),
            r matches Ok(i) ==> i.name@ == name@,
            forall|k: int| #[trigger]
                first_named(interfaces@, name@, k) ==> {
                    let c = interfaces@[k];
                    if c.mac is Some && first_ipv4(c.ips@) is Some {
                        r matches Ok(i) && i.name == c.name && i.index == c.index
                            && i.addresses == NetworkAddresses { mac: c.mac->0, ip: first_ipv4(c.ips@)->0 }
                    } else {
                        r == Err::<Interface, Error>(Error::BadInterface { interface: c.name })
                    }
                },
    {
        let wanted = String::from_str(name);
        let mut k: usize = 0;
        while k < interfaces.len()
            invariant
                k <= interfaces@.len(),
                wanted@ == name@,
                forall|j: int| 0 <= j < k ==> (#[trigger] interfaces@[j]).name@ != name@,
            ensures
                k < interfaces@.len() ==> interfaces@[k as int].name@ == name@,
            decreases interfaces@.len() - k,
        {
            if interfaces[k].name == wanted {
                break;
            }
            k = k + 1;
        }
        if k == interfaces.len() {
            return Err(Error::UnknownInterface { interface: wanted });
        }
        proof {
            assert(first_named(interfaces@, name@, k as int));
            assert forall|j: int| #[trigger] first_named(interfaces@, name@, j) implies j == k by {
                if j < k {
                } else if j > k {
                    assert(interfaces@[k as int].name@ == name@);
                }
            }
        }
        let c = &interfaces[k];
        let mac = match c.mac {
            Some(mac) => mac,
            None => {
                return Err(Error::BadInterface { interface: c.name.clone() });
            },
        };
        let ip = match find_ipv4(&c.ips) {
            Some(ip) => ip,
            None => {
                return Err(Error::BadInterface { interface: c.name.clone() });
            },
        };
        Ok(Interface { name: c.name.clone(), index: c.index, addresses: NetworkAddresses::new(mac, ip) })
    }
}

/// The largest span, in milliseconds, that a `Duration` holds.
pub const MAX_DURATION_MILLIS: u128 = 9_223_372_036_854_775_807;

/// A cooldown given in milliseconds, refused where it does not fit a `Duration`.
pub fn cooldown_from_millis(millis: u128) -> (r: Result<Duration, Error>)
    ensures
        millis <= MAX_DURATION_MILLIS ==> r == Ok::<Duration, Error>(Duration { millis: millis as i64 }),
        millis > MAX_DURATION_MILLIS ==> r == Err::<Duration, Error>(Error::InvalidDuration { millis }),
{
    if millis <= MAX_DURATION_MILLIS {
        Ok(Duration { millis: millis as i64 })
    } else {
        Err(Error::InvalidDuration { millis })
    }
}

/// Everything the presence tracker is started with.
#[derive(Debug)]
pub struct Config {
    pub interface: Interface,
    pub bot_token: String,
    pub cooldown: Option<Duration>,
    pub quiet_period: Option<Period>,
    pub rules: Vec<(MacAddress, Metadata)>,
}

impl Config {
    /// Puts a configuration together from what was read of it, checking it
    /// in this order: the interface, the cooldown, then the persons.
    pub fn from_parts(
        interface: &str,
        interfaces: Vec<InterfaceInfo>,
        bot_token: String,
        cooldown_millis: Option<u128>,
        quiet_period: Option<Period>,
        users: &Vec<User>,
    ) -> (r: Result<Config, Error>)
        ensures
            r matches Ok(c) ==> {
                &&& c.bot_token == bot_token
                &&& c.quiet_period == quiet_period
                &&& c.interface.name@ == interface@
                &&& match cooldown_millis {
                    None => c.cooldown is None,
                    Some(ms) => ms <= MAX_DURATION_MILLIS && c.cooldown == Some(
                        Duration { millis: ms as i64 },
                    ),
                }
                &&& (make_rules(users@, users@.len()) matches Ok(sp) && rules_agree(c.rules@, sp, users@))
            },
            (r is Ok) <== ((exists|k: int| #[trigger] first_named(interfaces@, interface@, k)
                && interfaces@[k].mac is Some && first_ipv4(interfaces@[k].ips@) is Some)
                && (cooldown_millis matches Some(ms) ==> ms <= MAX_DURATION_MILLIS)
                && make_rules(users@, users@.len()) is Ok),
    {
        let ghost ifs = interfaces@;
        let iface = match Interface::from_name(interface, interfaces) {
            Ok(i) => i,
            Err(e) => {
                return Err(e);
            },
        };
        let cooldown = match cooldown_millis {
            Some(ms) => match cooldown_from_millis(ms) {
                Ok(d) => Some(d),
                Err(e) => {
                    return Err(e);
                },
            },
            None => None,
        };
        let rules = match build_rules(users) {
            Ok(rules) => rules,
            Err(e) => {
                return Err(e);
            },
        };
        Ok(Config { interface: iface, bot_token, cooldown, quiet_period, rules })
    }
}

} // verus!
